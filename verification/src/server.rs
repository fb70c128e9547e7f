//! What a server decides before it answers a request.

use crate::text::{append_bytes, str_eq, string_from_utf8};
use vstd::prelude::*;
use vstd::string::*;
use vstd::utf8::*;

verus! {

/// What is done with a request.
#[derive(Debug, Copy, Clone, PartialEq, Eq, Structural)]
pub enum Plan {
    /// The client has the asset that it asks for: answer with status 304.
    NotModified,
    /// Send the asset that the path names.
    Asset,
    /// Look for a route.
    Route,
}

/// What is done with a request, by the rule that assets come before routes.
pub open spec fn planned(asset_etag: Option<Seq<char>>, if_none_match: Option<Seq<char>>) -> Plan {
    match asset_etag {
        None => Plan::Route,
        Some(etag) => if if_none_match == Some(etag) {
            Plan::NotModified
        } else {
            Plan::Asset
        },
    }
}

/// Decides what is done with a request. `asset_etag` is the tag of the
/// asset that the path of the request names, if it names one;
/// `if_none_match` is the value of the header of that name, if the request
/// has one.
pub fn plan(asset_etag: Option<&str>, if_none_match: Option<&str>) -> (plan: Plan)
    ensures
        plan == planned(
            match asset_etag {
                Some(etag) => Some(etag@),
                None => None,
            },
            match if_none_match {
                Some(seen) => Some(seen@),
                None => None,
            },
        ),
{
    match asset_etag {
        None => Plan::Route,
        Some(etag) => match if_none_match {
            Some(seen) => if str_eq(seen, etag) {
                Plan::NotModified
            } else {
                Plan::Asset
            },
            None => Plan::Asset,
        },
    }
}

/// `s` with each `{}` replaced by `with`, from left to right.
pub open spec fn filled(s: Seq<u8>, with: Seq<u8>) -> Seq<u8>
    decreases s.len(),
{
    if s.len() == 0 {
        Seq::empty()
    } else if s.len() >= 2 && s[0] == 0x7b && s[1] == 0x7d {
        with + filled(s.skip(2), with)
    } else {
        seq![s[0]] + filled(s.skip(1), with)
    }
}

/// The bytes of the line that a server prints when it starts. Without a
/// banner the line names the address; an empty banner means that nothing is
/// printed; any other banner is printed with the address in place of each
/// `{}`.
pub open spec fn banner_bytes(banner: Option<Seq<u8>>, address: Seq<u8>) -> Option<Seq<u8>> {
    match banner {
        None => Some("~ vial running at http://".spec_bytes() + address),
        Some(text) => if text.len() == 0 {
            None
        } else {
            Some(filled(text, "http://".spec_bytes() + address))
        },
    }
}

/// The line that a server prints when it starts, if it prints one. There is
/// none, too, if the bytes that make it up are not UTF-8.
pub fn banner_line(banner: Option<&str>, address: &str) -> (line: Option<String>)
    ensures
        match banner_bytes(
            match banner {
                Some(text) => Some(text.spec_bytes()),
                None => None,
            },
            address.spec_bytes(),
        ) {
            Some(bytes) => match line {
                Some(text) => valid_utf8(bytes) && text@ == decode_utf8(bytes),
                None => !valid_utf8(bytes),
            },
            None => line is None,
        },
{
    let mut out: Vec<u8> = Vec::new();
    match banner {
        None => {
            append_bytes(&mut out, "~ vial running at http://".as_bytes());
            append_bytes(&mut out, address.as_bytes());
            assert(out@ =~= "~ vial running at http://".spec_bytes() + address.spec_bytes());
        },
        Some(text) => {
            let bytes = text.as_bytes();
            if bytes.len() == 0 {
                return None;
            }
            let mut with: Vec<u8> = Vec::new();
            append_bytes(&mut with, "http://".as_bytes());
            append_bytes(&mut with, address.as_bytes());
            assert(with@ =~= "http://".spec_bytes() + address.spec_bytes());
            let mut i: usize = 0;
            assert(bytes@.skip(0) =~= bytes@);
            assert(out@ + filled(bytes@, with@) =~= filled(bytes@, with@));
            while i < bytes.len()
                invariant
                    i <= bytes@.len(),
                    filled(bytes@, with@) == out@ + filled(bytes@.skip(i as int), with@),
                decreases bytes@.len() - i,
            {
                let ghost left = bytes@.skip(i as int);
                let ghost before = out@;
                assert(left[0] == bytes@[i as int]);
                if bytes[i] == 0x7b && i + 1 < bytes.len() && bytes[i + 1] == 0x7d {
                    assert(left[1] == bytes@[i + 1]);
                    append_bytes(&mut out, with.as_slice());
                    i += 2;
                    proof {
                        assert(left.skip(2) =~= bytes@.skip(i as int));
                        assert(before + (with@ + filled(left.skip(2), with@)) =~= out@ + filled(
                            left.skip(2),
                            with@,
                        ));
                    }
                } else {
                    proof {
                        if left.len() >= 2 {
                            assert(left[1] == bytes@[i + 1]);
                        }
                    }
                    out.push(bytes[i]);
                    i += 1;
                    proof {
                        assert(left.skip(1) =~= bytes@.skip(i as int));
                        assert(before + (seq![left[0]] + filled(left.skip(1), with@)) =~= out@
                            + filled(left.skip(1), with@));
                    }
                }
            }
            proof {
                assert(bytes@.skip(i as int).len() == 0);
                assert(out@ + Seq::<u8>::empty() =~= out@);
            }
        },
    }
    string_from_utf8(out.as_slice())
}

} // verus!
