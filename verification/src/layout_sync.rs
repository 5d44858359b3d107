//! The TouchOSC layout sync service's own text: the name a host advertises
//! itself under, and how a layout download is labelled.

use vstd::prelude::*;

verus! {

/// The text of `s` before its first `.`, or all of it if it has none.
pub open spec fn before_first_dot(s: Seq<char>) -> Seq<char>
    decreases s.len(),
{
    if s.len() == 0 {
        s
    } else if s[0] == '.' {
        Seq::empty()
    } else {
        seq![s[0]] + before_first_dot(s.drop_first())
    }
}

/// A hostname stripped of any domain.
pub fn short_hostname_of(raw: &str) -> (r: String)
    ensures
        r@ == before_first_dot(raw@),
{
    let n = raw.unicode_len();
    let mut i: usize = 0;
    assert(raw@.subrange(0, 0) =~= Seq::<char>::empty());
    assert(raw@.subrange(0, n as int) =~= raw@);
    while i < n
        invariant
            n == raw@.len(),
            0 <= i <= n,
            forall|k: int| 0 <= k < i ==> raw@[k] != '.',
            before_first_dot(raw@) == raw@.subrange(0, i as int) + before_first_dot(
                raw@.subrange(i as int, n as int),
            ),
        ensures
            0 <= i <= n,
            i == n || raw@[i as int] == '.',
            before_first_dot(raw@) == raw@.subrange(0, i as int) + before_first_dot(
                raw@.subrange(i as int, n as int),
            ),
        decreases n - i,
    {
        if raw.get_char(i) == '.' {
            break;
        }
        proof {
            let rest = raw@.subrange(i as int, n as int);
            assert(rest.drop_first() =~= raw@.subrange(i + 1, n as int));
            assert(raw@.subrange(0, i + 1) =~= raw@.subrange(0, i as int) + seq![raw@[i as int]]);
        }
        i = i + 1;
    }
    proof {
        let rest = raw@.subrange(i as int, n as int);
        if i < n {
            assert(rest[0] == '.');
        }
        assert(before_first_dot(rest) =~= Seq::<char>::empty());
    }
    let head = raw.substring_char(0, i);
    assert(head@ =~= before_first_dot(raw@));
    String::from_str(head)
}

/// The `Content-Disposition` value that makes a sync response download as
/// the layout `layout_name`.
pub fn content_disposition(layout_name: &str) -> (r: String)
    ensures
        r@ == "attachment; filename=\""@ + layout_name@ + ".touchosc\""@,
{
    let mut v = String::from_str("attachment; filename=\"");
    v.append(layout_name);
    v.append(".touchosc\"");
    v
}

} // verus!
