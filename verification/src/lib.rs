//! Verified core of the laundry back-office backup service: the record
//! models, the merge of client backups into stored backups, and the
//! gzip + base64 framing of the stored payloads.

pub mod backup;
pub mod codec;
pub mod model;
pub mod sync;
