//! Where the files of an asset directory are found.

use crate::router::slashless_len;
use crate::text::{bytes_eq, find, scan, string_from_utf8, Stop};
use vstd::prelude::*;
use vstd::slice::slice_subrange;
use vstd::string::*;
use vstd::utf8::*;

verus! {

/// `s` without the copies of `prefix` at its start.
pub open spec fn without_prefixes(s: Seq<u8>, prefix: Seq<u8>) -> Seq<u8>
    decreases s.len(),
{
    if prefix.len() > 0 && s.len() >= prefix.len() && s.take(prefix.len() as int) == prefix {
        without_prefixes(s.skip(prefix.len() as int), prefix)
    } else {
        s
    }
}

/// `s` without the bytes `b` at its start.
pub open spec fn without_leading(s: Seq<u8>, b: u8) -> Seq<u8> {
    if 0 <= scan(s, 0, Stop::Not(b)) <= s.len() {
        s.skip(scan(s, 0, Stop::Not(b)))
    } else {
        s
    }
}

/// `s` with each pair of dots replaced by one dot, from left to right.
pub open spec fn dots_collapsed(s: Seq<u8>) -> Seq<u8>
    decreases s.len(),
{
    if s.len() == 0 {
        Seq::empty()
    } else if s.len() >= 2 && s[0] == 0x2e && s[1] == 0x2e {
        seq![0x2eu8] + dots_collapsed(s.skip(2))
    } else {
        seq![s[0]] + dots_collapsed(s.skip(1))
    }
}

/// The place of an asset under the directory `root`: the root without the
/// slashes at its end, a slash, and the path of the asset. The path is
/// taken without the root, the dots and the slashes at its start, and so
/// that it cannot climb out of the root: two dots in a row count as one.
pub open spec fn normalized(root: Seq<u8>, path: Seq<u8>) -> Seq<u8> {
    root.take(slashless_len(root)) + seq![0x2fu8] + dots_collapsed(
        without_leading(without_leading(without_prefixes(path, root), 0x2e), 0x2f),
    )
}

/// The place of the asset with the given path under the directory `root`.
/// There is none only if the bytes that make it up are not UTF-8.
pub fn normalize_path(root: &str, path: &str) -> (place: Option<String>)
    ensures
        match place {
            Some(text) => valid_utf8(normalized(root.spec_bytes(), path.spec_bytes())) && text@
                == decode_utf8(normalized(root.spec_bytes(), path.spec_bytes())),
            None => !valid_utf8(normalized(root.spec_bytes(), path.spec_bytes())),
        },
{
    let base = root.as_bytes();
    let name = path.as_bytes();
    let mut end: usize = base.len();
    assert(base@.take(end as int) =~= base@);
    while end > 0 && base[end - 1] == 0x2f
        invariant
            end <= base@.len(),
            slashless_len(base@) == slashless_len(base@.take(end as int)),
        decreases end,
    {
        proof {
            assert(base@.take(end as int).drop_last() =~= base@.take(end - 1));
        }
        end -= 1;
    }
    proof {
        if end > 0 {
            assert(base@.take(end as int).last() == base@[end - 1]);
        }
    }
    let mut start: usize = 0;
    assert(name@.skip(0) =~= name@);
    while base.len() > 0 && name.len() - start >= base.len() && bytes_eq(
        slice_subrange(name, start, start + base.len()),
        base,
    )
        invariant
            start <= name@.len(),
            without_prefixes(name@, base@) == without_prefixes(name@.skip(start as int), base@),
        decreases name@.len() - start,
    {
        proof {
            let rest = name@.skip(start as int);
            assert(rest.take(base@.len() as int) =~= name@.subrange(
                start as int,
                start + base@.len(),
            ));
            assert(rest.skip(base@.len() as int) =~= name@.skip(start + base@.len()));
        }
        start += base.len();
    }
    proof {
        let rest = name@.skip(start as int);
        if base@.len() > 0 && rest.len() >= base@.len() {
            assert(rest.take(base@.len() as int) =~= name@.subrange(
                start as int,
                start + base@.len(),
            ));
        }
    }
    let rest = slice_subrange(name, start, name.len());
    assert(rest@ =~= name@.skip(start as int));
    let dots = find(rest, 0, Stop::Not(0x2e));
    let undotted = slice_subrange(rest, dots, rest.len());
    assert(undotted@ =~= without_leading(rest@, 0x2e));
    let slashes = find(undotted, 0, Stop::Not(0x2f));
    let tail = slice_subrange(undotted, slashes, undotted.len());
    assert(tail@ =~= without_leading(undotted@, 0x2f));
    let mut out: Vec<u8> = Vec::new();
    out.extend_from_slice(slice_subrange(base, 0, end));
    out.push(0x2f);
    let ghost front = out@;
    assert(front =~= base@.take(end as int) + seq![0x2fu8]);
    let mut i: usize = 0;
    assert(tail@.skip(0) =~= tail@);
    while i < tail.len()
        invariant
            i <= tail@.len(),
            front + dots_collapsed(tail@) == out@ + dots_collapsed(tail@.skip(i as int)),
        decreases tail@.len() - i,
    {
        let ghost left = tail@.skip(i as int);
        let ghost before = out@;
        assert(left[0] == tail@[i as int]);
        if tail[i] == 0x2e && i + 1 < tail.len() && tail[i + 1] == 0x2e {
            assert(left[1] == tail@[i + 1]);
            out.push(0x2e);
            i += 2;
            proof {
                assert(left.skip(2) =~= tail@.skip(i as int));
                assert(before + (seq![0x2eu8] + dots_collapsed(left.skip(2))) =~= out@
                    + dots_collapsed(left.skip(2)));
            }
        } else {
            proof {
                if left.len() >= 2 {
                    assert(left[1] == tail@[i + 1]);
                }
            }
            out.push(tail[i]);
            i += 1;
            proof {
                assert(left.skip(1) =~= tail@.skip(i as int));
                assert(before + (seq![left[0]] + dots_collapsed(left.skip(1))) =~= out@
                    + dots_collapsed(left.skip(1)));
            }
        }
    }
    proof {
        assert(tail@.skip(i as int).len() == 0);
        assert(out@ + Seq::<u8>::empty() =~= out@);
    }
    string_from_utf8(out.as_slice())
}

} // verus!
