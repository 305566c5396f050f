use vstd::prelude::*;
use vstd::utf8::encode_utf8;

verus! {

/// The byte of a label separator, `.`.
pub const DOT: u8 = 46;

/// The UTF-8 bytes of a text.
pub open spec fn utf8(s: Seq<char>) -> Seq<u8> {
    encode_utf8(s)
}

/// `name` equals `entry`, or ends with a `.` followed by `entry`.
pub open spec fn dot_suffix_match(name: Seq<u8>, entry: Seq<u8>) -> bool {
    name == entry || (name.len() > entry.len() && name.subrange(
        name.len() - entry.len(),
        name.len() as int,
    ) == entry && name[name.len() - entry.len() - 1] == DOT)
}

/// A domain name matches a listed domain when it is that domain or lies below it.
pub open spec fn domain_matches(name: Seq<char>, entry: Seq<char>) -> bool {
    dot_suffix_match(utf8(name), utf8(entry))
}

/// `s` with every trailing `.` removed.
pub open spec fn strip_dots(s: Seq<u8>) -> Seq<u8>
    decreases s.len(),
{
    if s.len() > 0 && s.last() == DOT {
        strip_dots(s.drop_last())
    } else {
        s
    }
}

/// The length of `s` once every trailing `.` is removed.
pub fn stripped_len(s: &[u8]) -> (r: usize)
    ensures
        r <= s@.len(),
        strip_dots(s@) == s@.subrange(0, r as int),
{
    let mut end: usize = s.len();
    assert(s@.subrange(0, end as int) =~= s@);
    while end > 0 && s[end - 1] == DOT
        invariant
            end <= s@.len(),
            strip_dots(s@) == strip_dots(s@.subrange(0, end as int)),
        decreases end,
    {
        assert(s@.subrange(0, end as int).drop_last() =~= s@.subrange(0, end - 1));
        end = end - 1;
    }
    assert(s@.subrange(0, end as int) =~= s@.subrange(0, end as int));
    end
}

/// Whether the first `end` bytes of `name` match `entry` by `dot_suffix_match`.
pub fn prefix_matches(name: &[u8], end: usize, entry: &[u8]) -> (r: bool)
    requires
        end <= name@.len(),
    ensures
        r == dot_suffix_match(name@.subrange(0, end as int), entry@),
{
    let ghost n = name@.subrange(0, end as int);
    let el = entry.len();
    if end < el {
        assert(n != entry@) by {
            assert(n.len() != entry@.len());
        }
        return false;
    }
    let start = end - el;
    let mut i: usize = 0;
    while i < el
        invariant
            start + el == end,
            n == name@.subrange(0, end as int),
            end <= name@.len(),
            el == entry@.len(),
            i <= el,
            forall|k: int| 0 <= k < i ==> name@[start + k] == entry@[k],
        decreases el - i,
    {
        if name[start + i] != entry[i] {
            let ghost k = i as int;
            assert(n[start + k] == name@[start + k]);
            assert(n.subrange(start as int, end as int)[k] == n[start + k]);
            assert(n.subrange(start as int, end as int) != entry@);
            assert(n != entry@) by {
                if n == entry@ {
                    assert(n[k] != entry@[k]);
                }
            }
            return false;
        }
        i = i + 1;
    }
    assert(n.subrange(n.len() - entry@.len(), n.len() as int) =~= entry@);
    if start == 0 {
        assert(n =~= entry@);
        true
    } else {
        name[start - 1] == DOT
    }
}


/// Whether the first `end` bytes of `a` are exactly `b`.
pub fn prefix_equals(a: &[u8], end: usize, b: &[u8]) -> (r: bool)
    requires
        end <= a@.len(),
    ensures
        r == (a@.subrange(0, end as int) == b@),
{
    if end != b.len() {
        assert(a@.subrange(0, end as int).len() != b@.len());
        return false;
    }
    let mut i: usize = 0;
    while i < end
        invariant
            end == b@.len(),
            end <= a@.len(),
            i <= end,
            forall|k: int| 0 <= k < i ==> a@[k] == b@[k],
        decreases end - i,
    {
        if a[i] != b[i] {
            assert(a@.subrange(0, end as int)[i as int] != b@[i as int]);
            return false;
        }
        i = i + 1;
    }
    assert(a@.subrange(0, end as int) =~= b@);
    true
}

} // verus!
