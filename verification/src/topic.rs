//! Topic strings: building them, and reading device names out of them.
//!
//! Topics are `/`-separated paths. A device announces itself on
//! `tele/<device>/LWT`, and the device name is always the second path
//! segment. Replies to the address lookup carry the address as the last
//! space-separated token, possibly wrapped in parentheses.

use vstd::prelude::*;
use vstd::string::StrSliceExecFns;
use vstd::string::StringExecFns;

verus! {

/// Some position of `s` holds `c`.
pub open spec fn has_char(s: Seq<char>, c: char) -> bool {
    exists|i: int| 0 <= i < s.len() && s[i] == c
}

/// The characters of `s` before the first occurrence of `c`
/// (all of `s` when `c` does not occur).
pub open spec fn before_first(s: Seq<char>, c: char) -> Seq<char>
    decreases s.len(),
{
    if s.len() == 0 {
        s
    } else if s[0] == c {
        Seq::empty()
    } else {
        seq![s[0]] + before_first(s.drop_first(), c)
    }
}

/// The characters of `s` after the first occurrence of `c`
/// (empty when `c` does not occur).
pub open spec fn after_first(s: Seq<char>, c: char) -> Seq<char>
    decreases s.len(),
{
    if s.len() == 0 {
        Seq::empty()
    } else if s[0] == c {
        s.drop_first()
    } else {
        after_first(s.drop_first(), c)
    }
}

/// The characters of `s` after the last occurrence of `c`
/// (all of `s` when `c` does not occur).
pub open spec fn after_last(s: Seq<char>, c: char) -> Seq<char>
    decreases s.len(),
{
    if s.len() == 0 {
        s
    } else if s.last() == c {
        Seq::empty()
    } else {
        after_last(s.drop_last(), c).push(s.last())
    }
}

/// `s` without its leading run of `c`.
pub open spec fn trim_leading(s: Seq<char>, c: char) -> Seq<char>
    decreases s.len(),
{
    if s.len() > 0 && s[0] == c {
        trim_leading(s.drop_first(), c)
    } else {
        s
    }
}

/// `s` without its trailing run of `c`.
pub open spec fn trim_trailing(s: Seq<char>, c: char) -> Seq<char>
    decreases s.len(),
{
    if s.len() > 0 && s.last() == c {
        trim_trailing(s.drop_last(), c)
    } else {
        s
    }
}

/// The device name carried by a topic: its second `/`-separated segment,
/// or nothing when the topic has no `/` at all.
pub open spec fn spec_device_of_topic(t: Seq<char>) -> Option<Seq<char>> {
    if has_char(t, '/') {
        Some(before_first(after_first(t, '/'), '/'))
    } else {
        None
    }
}

/// The address field of an address-lookup reply: the last space-separated
/// token, without its leading `(` and trailing `)` runs.
pub open spec fn spec_ip_reply_token(raw: Seq<char>) -> Seq<char> {
    trim_trailing(trim_leading(after_last(raw, ' '), '('), ')')
}

proof fn lemma_after_first_at(s: Seq<char>, c: char, i: int)
    requires
        0 <= i < s.len(),
        s[i] == c,
        forall|k: int| 0 <= k < i ==> s[k] != c,
    ensures
        after_first(s, c) == s.skip(i + 1),
    decreases i,
{
    if i == 0 {
        assert(s.drop_first() =~= s.skip(1));
    } else {
        lemma_after_first_at(s.drop_first(), c, i - 1);
        assert(s.drop_first().skip(i) =~= s.skip(i + 1));
    }
}

proof fn lemma_before_first_upto(s: Seq<char>, c: char, j: int)
    requires
        0 <= j <= s.len(),
        forall|k: int| 0 <= k < j ==> s[k] != c,
        j < s.len() ==> s[j] == c,
    ensures
        before_first(s, c) == s.take(j),
    decreases j,
{
    if j == 0 {
        if s.len() == 0 {
            assert(s =~= s.take(0));
        } else {
            assert(Seq::<char>::empty() =~= s.take(0));
        }
    } else {
        lemma_before_first_upto(s.drop_first(), c, j - 1);
        assert(seq![s[0]] + s.drop_first().take(j - 1) =~= s.take(j));
    }
}

proof fn lemma_after_last_at(s: Seq<char>, c: char, i: int)
    requires
        0 <= i < s.len(),
        s[i] == c,
        forall|k: int| i < k < s.len() ==> s[k] != c,
    ensures
        after_last(s, c) == s.skip(i + 1),
    decreases s.len(),
{
    if i == s.len() - 1 {
        assert(Seq::<char>::empty() =~= s.skip(i + 1));
    } else {
        lemma_after_last_at(s.drop_last(), c, i);
        assert(s.drop_last().skip(i + 1).push(s.last()) =~= s.skip(i + 1));
    }
}

proof fn lemma_after_last_none(s: Seq<char>, c: char)
    requires
        forall|k: int| 0 <= k < s.len() ==> s[k] != c,
    ensures
        after_last(s, c) == s,
    decreases s.len(),
{
    if s.len() > 0 {
        lemma_after_last_none(s.drop_last(), c);
        assert(s.drop_last().push(s.last()) =~= s);
    }
}

proof fn lemma_trim_leading_from(s: Seq<char>, c: char, a: int)
    requires
        0 <= a <= s.len(),
        forall|k: int| 0 <= k < a ==> s[k] == c,
        a < s.len() ==> s[a] != c,
    ensures
        trim_leading(s, c) == s.skip(a),
    decreases a,
{
    if a == 0 {
        assert(s =~= s.skip(0));
    } else {
        lemma_trim_leading_from(s.drop_first(), c, a - 1);
        assert(s.drop_first().skip(a - 1) =~= s.skip(a));
    }
}

proof fn lemma_trim_trailing_upto(s: Seq<char>, c: char, b: int)
    requires
        0 <= b <= s.len(),
        forall|k: int| b <= k < s.len() ==> s[k] == c,
        b > 0 ==> s[b - 1] != c,
    ensures
        trim_trailing(s, c) == s.take(b),
    decreases s.len(),
{
    if b == s.len() {
        if s.len() > 0 {
            assert(s =~= s.take(b));
        } else {
            assert(s =~= s.take(0));
        }
    } else {
        lemma_trim_trailing_upto(s.drop_last(), c, b);
        assert(s.drop_last().take(b) =~= s.take(b));
    }
}

/// Whether two string slices hold the same characters.
pub fn str_eq(a: &str, b: &str) -> (r: bool)
    ensures
        r == (a@ == b@),
{
    let n = a.unicode_len();
    if n != b.unicode_len() {
        return false;
    }
    let mut i: usize = 0;
    while i < n
        invariant
            0 <= i <= n,
            n == a@.len(),
            n == b@.len(),
            forall|k: int| 0 <= k < i ==> a@[k] == b@[k],
        decreases n - i,
    {
        if a.get_char(i) != b.get_char(i) {
            return false;
        }
        i = i + 1;
    }
    proof {
        assert(a@ =~= b@);
    }
    true
}

/// The position of the first occurrence of `c` in `s` at or after `from`.
fn find_char_from(s: &str, c: char, from: usize) -> (r: Option<usize>)
    requires
        from <= s@.len(),
    ensures
        match r {
            Some(i) => from <= i < s@.len() && s@[i as int] == c && (forall|k: int|
                from <= k < i ==> s@[k] != c),
            None => forall|k: int| from <= k < s@.len() ==> s@[k] != c,
        },
{
    let n = s.unicode_len();
    let mut i: usize = from;
    while i < n
        invariant
            from <= i <= n,
            n == s@.len(),
            forall|k: int| from <= k < i ==> s@[k] != c,
        decreases n - i,
    {
        if s.get_char(i) == c {
            return Some(i);
        }
        i = i + 1;
    }
    None
}

/// The device name carried by `topic`: its second `/`-separated segment.
///
/// Returns nothing when the topic holds no `/`; the segment may be empty
/// when two separators stand side by side.
pub fn device_of_topic(topic: &str) -> (r: Option<String>)
    ensures
        match r {
            Some(d) => spec_device_of_topic(topic@) == Some(d@),
            None => spec_device_of_topic(topic@) is None,
        },
{
    let i = match find_char_from(topic, '/', 0) {
        Some(i) => i,
        None => {
            return None;
        },
    };
    let n = topic.unicode_len();
    let j = match find_char_from(topic, '/', i + 1) {
        Some(j) => j,
        None => n,
    };
    let seg = topic.substring_char(i + 1, j);
    proof {
        lemma_after_first_at(topic@, '/', i as int);
        lemma_before_first_upto(topic@.skip(i + 1), '/', j - i - 1);
        assert(topic@.skip(i + 1).take(j - i - 1) =~= topic@.subrange(i + 1, j as int));
    }
    Some(seg.to_owned())
}

/// The address field of an address-lookup reply: the last space-separated
/// token of `raw`, without its leading `(` and trailing `)` runs.
pub fn ip_reply_token(raw: &str) -> (r: String)
    ensures
        r@ == spec_ip_reply_token(raw@),
{
    let n = raw.unicode_len();
    let mut start: usize = 0;
    let mut i: usize = 0;
    while i < n
        invariant
            0 <= start <= i <= n,
            n == raw@.len(),
            start > 0 ==> raw@[start - 1] == ' ',
            forall|k: int| start <= k < i ==> raw@[k] != ' ',
        decreases n - i,
    {
        if raw.get_char(i) == ' ' {
            start = i + 1;
        }
        i = i + 1;
    }
    let mut a: usize = start;
    while a < n && raw.get_char(a) == '('
        invariant
            start <= a <= n,
            n == raw@.len(),
            forall|k: int| start <= k < a ==> raw@[k] == '(',
        decreases n - a,
    {
        a = a + 1;
    }
    let mut b: usize = n;
    while b > a && raw.get_char(b - 1) == ')'
        invariant
            a <= b <= n,
            n == raw@.len(),
            forall|k: int| b <= k < n ==> raw@[k] == ')',
        decreases b,
    {
        b = b - 1;
    }
    let tok = raw.substring_char(a, b);
    proof {
        if start > 0 {
            lemma_after_last_at(raw@, ' ', start - 1);
        } else {
            lemma_after_last_none(raw@, ' ');
            assert(raw@.skip(0) =~= raw@);
        }
        let t = raw@.skip(start as int);
        lemma_trim_leading_from(t, '(', a - start);
        assert(t.skip(a - start) =~= raw@.skip(a as int));
        lemma_trim_trailing_upto(raw@.skip(a as int), ')', b - a);
        assert(raw@.skip(a as int).take(b - a) =~= raw@.subrange(a as int, b as int));
    }
    tok.to_owned()
}

/// `prefix`, `device` and `suffix` joined into one topic string.
pub fn device_topic(prefix: &str, device: &str, suffix: &str) -> (r: String)
    ensures
        r@ == prefix@ + device@ + suffix@,
{
    let mut r = prefix.to_owned();
    r.append(device);
    r.append(suffix);
    r
}

} // verus!
