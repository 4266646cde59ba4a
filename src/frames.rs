use vstd::prelude::*;
use vstd::string::StringSliceAdditionalSpecFns;
use vstd::utf8::encode_utf8;

verus! {

/// A file found in an animation directory: its name and its text.
pub struct FrameFile {
    pub name: String,
    pub text: String,
}

/// The suffix that marks a frame file: `.txt`.
pub open spec fn frame_suffix() -> Seq<u8> {
    seq![46u8, 116u8, 120u8, 116u8]
}

pub open spec fn is_digit(b: u8) -> bool {
    48 <= b <= 57
}

pub open spec fn all_digits(s: Seq<u8>) -> bool {
    forall|i: int| 0 <= i < s.len() ==> is_digit(#[trigger] s[i])
}

/// The decimal value of a string of digits.
pub open spec fn digits_value(s: Seq<u8>) -> int
    decreases s.len(),
{
    if s.len() == 0 {
        0
    } else {
        10 * digits_value(s.drop_last()) + (s.last() - 48)
    }
}

/// The number part of a frame name: digits, after an optional `+`.
pub open spec fn key_digits(p: Seq<u8>) -> Seq<u8> {
    if p.len() > 0 && p[0] == 43u8 {
        p.subrange(1, p.len() as int)
    } else {
        p
    }
}

/// The key of a file name `<N>.txt`, where `N` is a decimal integer that fits
/// in 64 bits; `None` for any other name.
pub open spec fn frame_key_of(name: Seq<u8>) -> Option<u64> {
    if name.len() < 4 || name.subrange(name.len() - 4, name.len() as int) != frame_suffix() {
        None
    } else {
        let d = key_digits(name.subrange(0, name.len() - 4));
        if d.len() > 0 && all_digits(d) && digits_value(d) <= u64::MAX {
            Some(digits_value(d) as u64)
        } else {
            None
        }
    }
}

proof fn lemma_digits_value_nonneg(s: Seq<u8>)
    requires
        all_digits(s),
    ensures
        digits_value(s) >= 0,
    decreases s.len(),
{
    if s.len() > 0 {
        lemma_digits_value_nonneg(s.drop_last());
    }
}

/// A longer string of digits is worth at least as much as its prefix.
proof fn lemma_digits_prefix_le(s: Seq<u8>, k: int)
    requires
        all_digits(s),
        0 <= k <= s.len(),
    ensures
        digits_value(s.subrange(0, k)) <= digits_value(s),
    decreases s.len() - k,
{
    if k < s.len() {
        let t = s.subrange(0, k + 1);
        assert(t.drop_last() =~= s.subrange(0, k));
        lemma_digits_value_nonneg(s.subrange(0, k));
        lemma_digits_prefix_le(s, k + 1);
    } else {
        assert(s.subrange(0, k) =~= s);
    }
}

/// The key of a frame file's name, if the name has the shape `<N>.txt`.
pub fn frame_key(name: &str) -> (r: Option<u64>)
    ensures
        r == frame_key_of(name.spec_bytes()),
{
    let b = name.as_bytes();
    let n = b.len();
    if n < 4 || b[n - 4] != 46u8 || b[n - 3] != 116u8 || b[n - 2] != 120u8 || b[n - 1] != 116u8 {
        proof {
            if n >= 4 {
                let suf = b@.subrange(n - 4, n as int);
                assert(suf[0] == b@[n - 4]);
                assert(suf[1] == b@[n - 3]);
                assert(suf[2] == b@[n - 2]);
                assert(suf[3] == b@[n - 1]);
            }
        }
        return None;
    }
    assert(b@.subrange(n - 4, n as int) =~= frame_suffix());
    let ghost p = b@.subrange(0, n - 4);
    let start: usize = if n > 4 && b[0] == 43u8 { 1 } else { 0 };
    let end: usize = n - 4;
    let ghost d = key_digits(p);
    assert(d =~= b@.subrange(start as int, end as int));
    if start == end {
        return None;
    }
    let mut value: u64 = 0;
    let mut i: usize = start;
    while i < end
        invariant
            start <= i <= end,
            end == n - 4,
            b@.len() == n,
            b@ == name.spec_bytes(),
            b@.subrange(n - 4, n as int) == frame_suffix(),
            d == key_digits(b@.subrange(0, n - 4)),
            d =~= b@.subrange(start as int, end as int),
            all_digits(d.subrange(0, i - start)),
            value as int == digits_value(d.subrange(0, i - start)),
        decreases end - i,
    {
        let c = b[i];
        if c < 48u8 || c > 57u8 {
            assert(d[i - start] == c);
            assert(!all_digits(d));
            return None;
        }
        let digit: u64 = (c - 48u8) as u64;
        let ghost next = d.subrange(0, i - start + 1);
        assert(next.drop_last() =~= d.subrange(0, i - start));
        assert(all_digits(next)) by {
            assert forall|j: int| 0 <= j < next.len() implies is_digit(#[trigger] next[j]) by {
                if j < next.len() - 1 {
                    assert(next[j] == d.subrange(0, i - start)[j]);
                }
            }
        }
        if value > (u64::MAX - digit) / 10 {
            proof {
                if all_digits(d) {
                    lemma_digits_prefix_le(d, i - start + 1);
                }
            }
            return None;
        }
        value = value * 10 + digit;
        i = i + 1;
    }
    assert(d.subrange(0, i - start) =~= d);
    Some(value)
}


/// A frame as the ordering sees it: its key and its text.
pub type KeyedFrame = (u64, Seq<char>);

pub open spec fn keyed_view(v: Seq<(u64, String)>) -> Seq<KeyedFrame> {
    v.map_values(|p: (u64, String)| (p.0, p.1@))
}

/// The frames among `files`, in the order given, each with its key.
pub open spec fn frame_entries(files: Seq<FrameFile>) -> Seq<KeyedFrame>
    decreases files.len(),
{
    if files.len() == 0 {
        Seq::empty()
    } else {
        let rest = frame_entries(files.drop_last());
        match frame_key_of(encode_utf8(files.last().name@)) {
            Some(k) => rest.push((k, files.last().text@)),
            None => rest,
        }
    }
}

/// `e` placed after every entry of `s` whose key is not greater than its own.
pub open spec fn insert_keyed(s: Seq<KeyedFrame>, e: KeyedFrame) -> Seq<KeyedFrame>
    decreases s.len(),
{
    if s.len() == 0 {
        seq![e]
    } else if s.last().0 <= e.0 {
        s.push(e)
    } else {
        insert_keyed(s.drop_last(), e).push(s.last())
    }
}

/// `s` ordered by ascending key; entries with equal keys keep their order.
pub open spec fn ordered_by_key(s: Seq<KeyedFrame>) -> Seq<KeyedFrame>
    decreases s.len(),
{
    if s.len() == 0 {
        Seq::empty()
    } else {
        insert_keyed(ordered_by_key(s.drop_last()), s.last())
    }
}

pub open spec fn sorted_by_key(s: Seq<KeyedFrame>) -> bool {
    forall|i: int, j: int| 0 <= i < j < s.len() ==> s[i].0 <= s[j].0
}

proof fn lemma_insert_at(s: Seq<KeyedFrame>, e: KeyedFrame, j: int)
    requires
        0 <= j <= s.len(),
        forall|m: int| j <= m < s.len() ==> s[m].0 > e.0,
        j == 0 || s[j - 1].0 <= e.0,
    ensures
        insert_keyed(s, e) =~= s.insert(j, e),
    decreases s.len(),
{
    if s.len() > 0 && j < s.len() {
        lemma_insert_at(s.drop_last(), e, j);
        assert(s.drop_last().insert(j, e).push(s.last()) =~= s.insert(j, e));
    }
}

proof fn lemma_insert_keeps_sorted(s: Seq<KeyedFrame>, e: KeyedFrame)
    requires
        sorted_by_key(s),
    ensures
        sorted_by_key(insert_keyed(s, e)),
        insert_keyed(s, e).len() == s.len() + 1,
        forall|i: int| 0 <= i < insert_keyed(s, e).len() ==>
            (#[trigger] insert_keyed(s, e)[i] == e || s.contains(insert_keyed(s, e)[i])),
    decreases s.len(),
{
    if s.len() > 0 && s.last().0 > e.0 {
        let t = s.drop_last();
        assert(sorted_by_key(t));
        lemma_insert_keeps_sorted(t, e);
        let r = insert_keyed(t, e);
        assert forall|i: int| 0 <= i < r.len() implies r[i].0 <= s.last().0 by {
            if r[i] != e {
                let k = choose|k: int| 0 <= k < t.len() && t[k] == r[i];
                assert(s[k] == t[k]);
            }
        }
        assert forall|i: int| 0 <= i < r.len() && t.contains(r[i]) implies s.contains(r[i]) by {
            let k = choose|k: int| 0 <= k < t.len() && t[k] == r[i];
            assert(s[k] == t[k]);
        }
        assert(s.contains(s.last())) by {
            assert(s[s.len() - 1] == s.last());
        }
    } else if s.len() > 0 {
        assert forall|i: int| 0 <= i < s.len() implies s.contains(#[trigger] s.push(e)[i]) by {
            assert(s.push(e)[i] == s[i]);
        }
    }
}

/// The ordered frames ascend by key.
pub proof fn lemma_ordered_by_key_sorted(s: Seq<KeyedFrame>)
    ensures
        sorted_by_key(ordered_by_key(s)),
        ordered_by_key(s).len() == s.len(),
    decreases s.len(),
{
    if s.len() > 0 {
        lemma_ordered_by_key_sorted(s.drop_last());
        lemma_insert_keeps_sorted(ordered_by_key(s.drop_last()), s.last());
    }
}

proof fn lemma_insert_keyed_multiset(s: Seq<KeyedFrame>, e: KeyedFrame)
    ensures
        insert_keyed(s, e).to_multiset() =~= s.to_multiset().insert(e),
    decreases s.len(),
{
    broadcast use vstd::seq_lib::group_to_multiset_ensures;

    if s.len() > 0 {
        let t = s.drop_last();
        assert(s =~= t.push(s.last()));
        if s.last().0 > e.0 {
            lemma_insert_keyed_multiset(t, e);
        }
    }
}

/// Ordering by key keeps every frame, each as often as it was given.
pub proof fn lemma_ordered_by_key_permutes(s: Seq<KeyedFrame>)
    ensures
        ordered_by_key(s).to_multiset() =~= s.to_multiset(),
    decreases s.len(),
{
    broadcast use vstd::seq_lib::group_to_multiset_ensures;

    if s.len() > 0 {
        let t = s.drop_last();
        assert(s =~= t.push(s.last()));
        lemma_ordered_by_key_permutes(t);
        lemma_insert_keyed_multiset(ordered_by_key(t), s.last());
    }
}

/// Places `e` into `v` after every entry whose key is not greater than its own.
fn insert_by_key(v: &mut Vec<(u64, String)>, e: (u64, String))
    ensures
        keyed_view(final(v)@) == insert_keyed(keyed_view(old(v)@), (e.0, e.1@)),
{
    let ghost s = keyed_view(v@);
    let mut j: usize = v.len();
    while j > 0 && v[j - 1].0 > e.0
        invariant
            j <= v@.len(),
            s == keyed_view(v@),
            forall|m: int| j <= m < v@.len() ==> v@[m].0 > e.0,
        decreases j,
    {
        j = j - 1;
    }
    let ghost ev = (e.0, e.1@);
    proof {
        lemma_insert_at(s, ev, j as int);
    }
    v.insert(j, e);
    assert(keyed_view(v@) =~= s.insert(j as int, ev));
}

/// The entries ordered by ascending key, equal keys in their given order.
pub fn order_by_key(entries: Vec<(u64, String)>) -> (r: Vec<(u64, String)>)
    ensures
        keyed_view(r@) == ordered_by_key(keyed_view(entries@)),
{
    let mut r: Vec<(u64, String)> = Vec::new();
    let mut i: usize = 0;
    while i < entries.len()
        invariant
            i <= entries@.len(),
            keyed_view(r@) == ordered_by_key(keyed_view(entries@).subrange(0, i as int)),
        decreases entries@.len() - i,
    {
        let ghost pre = keyed_view(entries@).subrange(0, i as int);
        let ghost next = keyed_view(entries@).subrange(0, i + 1);
        assert(next.drop_last() =~= pre);
        let e = (entries[i].0, entries[i].1.clone());
        insert_by_key(&mut r, e);
        i = i + 1;
    }
    assert(keyed_view(entries@).subrange(0, i as int) =~= keyed_view(entries@));
    r
}

/// The frame files among `files`, each with its key, in the order given.
pub fn collect_frames(files: &Vec<FrameFile>) -> (r: Vec<(u64, String)>)
    ensures
        keyed_view(r@) == frame_entries(files@),
{
    let mut r: Vec<(u64, String)> = Vec::new();
    let mut i: usize = 0;
    while i < files.len()
        invariant
            i <= files@.len(),
            keyed_view(r@) == frame_entries(files@.subrange(0, i as int)),
        decreases files@.len() - i,
    {
        let ghost next = files@.subrange(0, i + 1);
        assert(next.drop_last() =~= files@.subrange(0, i as int));
        assert(next.last() == files@[i as int]);
        match frame_key(files[i].name.as_str()) {
            Some(k) => {
                let ghost before = r@;
                r.push((k, files[i].text.clone()));
                assert(keyed_view(r@) =~= keyed_view(before).push((k, files@[i as int].text@)));
            },
            None => {},
        }
        i = i + 1;
    }
    assert(files@.subrange(0, i as int) =~= files@);
    r
}

} // verus!
