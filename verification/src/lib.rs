pub mod artifact;
pub mod atoms;
pub mod codec_in;
pub mod codec_out;
pub mod correlator;
pub mod ids;
pub mod protocol;
pub mod sequencer;
