pub mod ledger;
pub mod nightly_vod_response;
pub mod report;
pub mod scoring;
pub mod segments;
pub mod simulator;
pub mod stream_dto;
pub mod stream_names;
pub mod time;
pub mod vod_response;
pub mod vod_stream_pairs;
