//! Wall-clock timestamps recorded in the store and the kernel metadata.
use crate::text::{decimal, push_decimal, from_chars};
use vstd::prelude::*;

verus! {

/// `SystemTime::now().duration_since(UNIX_EPOCH)` in whole seconds, `None`
/// when the clock reads before the epoch. The value depends on the moment
/// of the call, so nothing is stated of it.
#[verifier::external_body]
pub(crate) fn epoch_secs() -> (r: Option<u64>) {
    match std::time::SystemTime::now().duration_since(std::time::UNIX_EPOCH) {
        Ok(d) => Some(d.as_secs()),
        Err(_) => None,
    }
}

/// The text a timestamp is stored as: the seconds in decimal, or empty
/// text when the clock could not be read.
pub open spec fn secs_text(secs: Option<u64>) -> Seq<char> {
    match secs {
        Some(n) => decimal(n as nat),
        None => Seq::empty(),
    }
}

/// Renders a reading of the clock as stored text.
pub fn stamp(secs: Option<u64>) -> (r: String)
    ensures
        r@ == secs_text(secs),
{
    let mut out: Vec<char> = Vec::new();
    match secs {
        Some(n) => {
            push_decimal(&mut out, n);
            assert(out@ =~= decimal(n as nat));
        },
        None => {},
    }
    from_chars(&out)
}

/// Seconds since the Unix epoch as decimal text, or empty text when the
/// clock reads before the epoch.
pub fn now_epoch_secs() -> (r: String)
    ensures
        exists|secs: Option<u64>| r@ == secs_text(secs),
{
    let secs = epoch_secs();
    let r = stamp(secs);
    assert(r@ == secs_text(secs));
    r
}

} // verus!
