pub mod audio;
pub mod audio_utils;
pub mod client;
pub mod error;
pub mod mp3;
pub mod pcm;
pub mod request;
pub mod response;
pub mod text;
pub mod wav;
