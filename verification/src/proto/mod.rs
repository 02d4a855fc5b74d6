//! Frame codecs of the ISO-on-TCP, S7 and S7CommPlus layers.
pub mod cotp;
pub mod s7;
pub mod s7commplus;
pub mod tpkt;
