//! The DNS wire format: big-endian integers, header, names, questions and
//! resource records.

pub mod dns_header;
pub mod dns_name;
pub mod dns_question;
pub mod dns_resource_record;
pub mod pointer_chase;
pub mod wire;
