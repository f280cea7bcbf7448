//! An MQTT 3.1.1 wire codec, the state of a broker built on it, and what a
//! client keeps of its own requests.

pub mod broker;
pub mod client_packet;
pub mod config;
pub mod connack;
pub mod connackresponse;
pub mod connect;
pub mod credentialmanager;
pub mod disconnect;
pub mod error;
pub mod filters;
pub mod idmanager;
pub mod messagemanager;
pub mod number_map;
pub mod packet;
pub mod packet_dispatcher;
pub mod pingreq;
pub mod pingresp;
pub mod puback;
pub mod publish;
pub mod reader;
pub mod registry;
pub mod sequence;
pub mod sessionmanager;
pub mod suback;
pub mod subackresponse;
pub mod subscribe;
pub mod subscriptionmanager;
pub mod text;
pub mod threadpool;
pub mod topicmanager;
pub mod unsuback;
pub mod unsubackresponse;
pub mod unsubscribe;
pub mod utils;
