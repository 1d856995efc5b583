//! The keys that senders publish in TXT records.

use vstd::prelude::*;

verus! {

pub const VERSION: &'static str = "v";

pub const SENDER_ID: &'static str = "id";

pub const NAME: &'static str = "n";

pub const CAPABILITIES: &'static str = "caps";

pub const PORT: &'static str = "port";

} // verus!
