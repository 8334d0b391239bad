//! The cue store: turns a track's cue file into ordered, per-channel-group
//! event lists.
//!
//! A cue file is a flat structured-data document mapping a comma-separated
//! channel list (`"1,3,5"`) to a map from millisecond-timestamp strings to a
//! small integer type code (`1` = on, anything else = off).  The store parses
//! the document, drops invalid channel tokens, normalizes the codes and sorts
//! every group's events ascending by timestamp.  A missing file is the valid
//! "no lighting" state; a malformed one is a fatal parse error.

use vstd::prelude::*;
use vstd::string::StrSliceExecFns;
use vstd::string::StringExecFns;

use crate::song::last_pos;

verus! {

/// The status a cue event drives a channel to.
#[derive(Clone, Copy, PartialEq, Eq, Structural, Debug)]
pub enum LightType {
    On,
    Off,
}

/// One cue event: at `timestamp` milliseconds, drive the group's channels to
/// `light_type`.
#[derive(Clone, Copy, PartialEq, Eq, Structural, Debug)]
pub struct LightData {
    pub timestamp: i32,
    pub light_type: LightType,
}

/// Abstract value of a [`ChannelData`].
pub ghost struct ChannelDataView {
    pub channels: Seq<i8>,
    pub data: Seq<LightData>,
    pub index: int,
}

/// One channel group: the channels sharing a timeline, the group's events
/// sorted ascending by timestamp, and the cursor of the next unfired event.
#[derive(Debug)]
pub struct ChannelData {
    pub channels: Vec<i8>,
    pub data: Vec<LightData>,
    pub index: usize,
}

/// Events ordered ascending by timestamp.
pub open spec fn events_sorted(data: Seq<LightData>) -> bool {
    forall|i: int, j: int|
        0 <= i < j < data.len() ==> data[i].timestamp <= data[j].timestamp
}

impl View for ChannelData {
    type V = ChannelDataView;

    open spec fn view(&self) -> ChannelDataView {
        ChannelDataView { channels: self.channels@, data: self.data@, index: self.index as int }
    }
}

impl ChannelDataView {
    /// The group invariant: events sorted, cursor inside the event list.
    pub open spec fn wf(self) -> bool {
        &&& events_sorted(self.data)
        &&& 0 <= self.index <= self.data.len()
    }
}

// ---------------------------------------------------------------------------
// Channel-list keys: comma-separated integers, invalid tokens dropped.
// ---------------------------------------------------------------------------

pub open spec fn is_space(c: char) -> bool {
    c == ' ' || c == '\t' || c == '\n' || c == '\r'
}

pub open spec fn is_digit(c: char) -> bool {
    48 <= c as u32 <= 57
}

pub open spec fn digit_val(c: char) -> int {
    c as u32 - 48
}

/// Value of a non-empty run of decimal digits.
pub open spec fn digits_val(s: Seq<char>) -> int
    decreases s.len(),
{
    if s.len() == 0 {
        0
    } else {
        digits_val(s.drop_last()) * 10 + digit_val(s.last())
    }
}

pub open spec fn all_digits(s: Seq<char>) -> bool {
    s.len() > 0 && forall|i: int| 0 <= i < s.len() ==> is_digit(s[i])
}

/// The integer a token spells: an optional sign followed by digits only.
pub open spec fn int_token_val(t: Seq<char>) -> Option<int> {
    if t.len() > 0 && (t[0] == '-' || t[0] == '+') {
        if all_digits(t.drop_first()) {
            if t[0] == '-' {
                Some(-digits_val(t.drop_first()))
            } else {
                Some(digits_val(t.drop_first()))
            }
        } else {
            None
        }
    } else if all_digits(t) {
        Some(digits_val(t))
    } else {
        None
    }
}

pub open spec fn trim_front(s: Seq<char>) -> Seq<char>
    decreases s.len(),
{
    if s.len() > 0 && is_space(s[0]) {
        trim_front(s.drop_first())
    } else {
        s
    }
}

pub open spec fn trim_back(s: Seq<char>) -> Seq<char>
    decreases s.len(),
{
    if s.len() > 0 && is_space(s.last()) {
        trim_back(s.drop_last())
    } else {
        s
    }
}

pub open spec fn trimmed(s: Seq<char>) -> Seq<char> {
    trim_back(trim_front(s))
}

/// The channel a single comma-separated token names, when it names one:
/// the token is trimmed, must spell an integer and must fit a channel id.
pub open spec fn channel_token_val(s: Seq<char>) -> Option<i8> {
    match int_token_val(trimmed(s)) {
        Some(v) => if -128 <= v <= 127 {
            Some(v as i8)
        } else {
            None
        },
        None => None,
    }
}

pub open spec fn first_pos(s: Seq<char>, c: char) -> int
    decreases s.len(),
{
    if s.len() == 0 {
        -1
    } else if s[0] == c {
        0
    } else {
        let r = first_pos(s.drop_first(), c);
        if r < 0 {
            -1
        } else {
            r + 1
        }
    }
}

/// The comma-separated tokens of `s`, in order; an empty `s` is one empty
/// token, as splitting never yields no tokens.
pub open spec fn split_commas(s: Seq<char>) -> Seq<Seq<char>>
    decreases s.len(),
{
    let p = first_pos(s, ',');
    if 0 <= p < s.len() {
        seq![s.subrange(0, p)] + split_commas(s.subrange(p + 1, s.len() as int))
    } else {
        seq![s]
    }
}

pub open spec fn channels_of_tokens(toks: Seq<Seq<char>>) -> Seq<i8>
    decreases toks.len(),
{
    if toks.len() == 0 {
        Seq::empty()
    } else {
        let rest = channels_of_tokens(toks.drop_first());
        match channel_token_val(toks[0]) {
            Some(v) => seq![v] + rest,
            None => rest,
        }
    }
}

/// The channel list a key spells: its valid tokens, in order.
pub open spec fn channels_of(s: Seq<char>) -> Seq<i8> {
    channels_of_tokens(split_commas(s))
}

proof fn lemma_digits_val_nonneg(s: Seq<char>)
    requires
        forall|i: int| 0 <= i < s.len() ==> is_digit(s[i]),
    ensures
        digits_val(s) >= 0,
    decreases s.len(),
{
    if s.len() > 0 {
        lemma_digits_val_nonneg(s.drop_last());
    }
}

/// Appending digits never shrinks the value: every prefix is a lower bound.
proof fn lemma_digits_val_prefix(s: Seq<char>, k: int)
    requires
        forall|i: int| 0 <= i < s.len() ==> is_digit(s[i]),
        0 <= k <= s.len(),
    ensures
        digits_val(s.subrange(0, k)) <= digits_val(s),
    decreases s.len(),
{
    if k == s.len() {
        assert(s.subrange(0, k) =~= s);
    } else {
        lemma_digits_val_nonneg(s.drop_last());
        assert(s.subrange(0, k) =~= s.drop_last().subrange(0, k));
        lemma_digits_val_prefix(s.drop_last(), k);
    }
}

proof fn lemma_first_pos_at(s: Seq<char>, c: char, i: int)
    requires
        0 <= i < s.len(),
        s[i] == c,
        forall|k: int| 0 <= k < i ==> s[k] != c,
    ensures
        first_pos(s, c) == i,
    decreases s.len(),
{
    if i > 0 {
        lemma_first_pos_at(s.drop_first(), c, i - 1);
    }
}

proof fn lemma_first_pos_none(s: Seq<char>, c: char)
    requires
        forall|k: int| 0 <= k < s.len() ==> s[k] != c,
    ensures
        first_pos(s, c) == -1,
    decreases s.len(),
{
    if s.len() > 0 {
        lemma_first_pos_none(s.drop_first(), c);
    }
}

fn find_first(s: &str, c: char) -> (r: Option<usize>)
    ensures
        match r {
            Some(p) => p < s@.len() && first_pos(s@, c) == p,
            None => first_pos(s@, c) == -1,
        },
{
    let n: usize = s.unicode_len();
    let mut i: usize = 0;
    while i < n
        invariant
            i <= n,
            n == s@.len(),
            forall|k: int| 0 <= k < i ==> s@[k] != c,
        decreases n - i,
    {
        if s.get_char(i) == c {
            proof {
                lemma_first_pos_at(s@, c, i as int);
            }
            return Some(i);
        }
        i = i + 1;
    }
    proof {
        lemma_first_pos_none(s@, c);
    }
    None
}

/// Parses one comma-separated token into a channel id, dropping it (`None`)
/// when it does not spell an integer that fits.
fn parse_channel_token(seg: &str) -> (r: Option<i8>)
    ensures
        r == channel_token_val(seg@),
{
    let n: usize = seg.unicode_len();

    // Trim leading whitespace.
    proof {
        assert(seg@.subrange(0, n as int) =~= seg@);
    }
    let mut a: usize = 0;
    while a < n
        invariant
            a <= n,
            n == seg@.len(),
            trim_front(seg@) == trim_front(seg@.subrange(a as int, n as int)),
        ensures
            a <= n,
            n == seg@.len(),
            trim_front(seg@) == seg@.subrange(a as int, n as int),
        decreases n - a,
    {
        let c = seg.get_char(a);
        if c != ' ' && c != '\t' && c != '\n' && c != '\r' {
            proof {
                assert(seg@.subrange(a as int, n as int)[0] == seg@[a as int]);
            }
            break;
        }
        proof {
            let cur = seg@.subrange(a as int, n as int);
            assert(cur.drop_first() =~= seg@.subrange(a + 1, n as int));
        }
        a = a + 1;
    }

    // Trim trailing whitespace.
    let mut b: usize = n;
    while b > a
        invariant
            a <= b <= n,
            n == seg@.len(),
            trim_back(seg@.subrange(a as int, n as int)) == trim_back(
                seg@.subrange(a as int, b as int),
            ),
        ensures
            a <= b <= n,
            n == seg@.len(),
            trim_back(seg@.subrange(a as int, n as int)) == seg@.subrange(a as int, b as int),
        decreases b,
    {
        let c = seg.get_char(b - 1);
        if c != ' ' && c != '\t' && c != '\n' && c != '\r' {
            proof {
                let cur = seg@.subrange(a as int, b as int);
                assert(cur.last() == seg@[b - 1]);
            }
            break;
        }
        proof {
            let cur = seg@.subrange(a as int, b as int);
            assert(cur.drop_last() =~= seg@.subrange(a as int, b - 1));
        }
        b = b - 1;
    }
    let ghost tok = seg@.subrange(a as int, b as int);
    proof {
        assert(trimmed(seg@) == tok);
    }

    if a == b {
        return None;
    }

    // An optional sign, then the digit run [sd, b).
    let c0 = seg.get_char(a);
    let has_sign = c0 == '-' || c0 == '+';
    let neg = c0 == '-';
    let sd: usize = if has_sign {
        a + 1
    } else {
        a
    };
    let ghost digits = seg@.subrange(sd as int, b as int);
    proof {
        if has_sign {
            assert(tok.drop_first() =~= digits);
        }
    }
    if sd == b {
        // A bare sign: no digits to the token.
        return None;
    }

    let mut acc: u64 = 0;
    let mut idx: usize = sd;
    while idx < b
        invariant
            sd <= idx <= b <= n,
            n == seg@.len(),
            sd < b,
            digits == seg@.subrange(sd as int, b as int),
            tok == seg@.subrange(a as int, b as int),
            a <= sd <= a + 1,
            has_sign ==> sd == a + 1 && tok.drop_first() == digits,
            !has_sign ==> sd == a && tok == digits,
            trimmed(seg@) == tok,
            has_sign == (tok[0] == '-' || tok[0] == '+'),
            neg == (tok[0] == '-'),
            forall|k: int| 0 <= k < idx - sd ==> is_digit(digits[k]),
            acc as int == digits_val(seg@.subrange(sd as int, idx as int)),
            acc <= 128,
        decreases b - idx,
    {
        let c = seg.get_char(idx);
        let u = c as u32;
        proof {
            let p1 = seg@.subrange(sd as int, idx + 1);
            assert(p1.drop_last() =~= seg@.subrange(sd as int, idx as int));
            assert(p1.last() == seg@[idx as int]);
            assert(seg@[idx as int] == digits[idx - sd]);
        }
        if u < 48 || u > 57 {
            // A non-digit in the run: the token spells no integer.
            return None;
        }
        let d: u64 = (u - 48) as u64;
        acc = acc * 10 + d;
        proof {
            assert(acc as int == digits_val(seg@.subrange(sd as int, idx + 1)));
        }
        if acc > 128 {
            proof {
                if all_digits(digits) {
                    lemma_digits_val_prefix(digits, idx + 1 - sd);
                    assert(seg@.subrange(sd as int, idx + 1) =~= digits.subrange(
                        0,
                        idx + 1 - sd,
                    ));
                    assert(digits_val(digits) > 128);
                }
            }
            return None;
        }
        idx = idx + 1;
    }
    proof {
        assert(digits =~= seg@.subrange(sd as int, b as int));
        assert(all_digits(digits));
        assert(acc as int == digits_val(digits));
    }

    if neg {
        if acc == 128 {
            Some(-128)
        } else {
            Some(0 - (acc as i8))
        }
    } else {
        if acc > 127 {
            None
        } else {
            Some(acc as i8)
        }
    }
}

fn split_parse(s: &str) -> (r: Vec<i8>)
    ensures
        r@ == channels_of(s@),
    decreases s@.len(),
{
    match find_first(s, ',') {
        None => {
            let mut r: Vec<i8> = Vec::new();
            let tok = parse_channel_token(s);
            if let Some(v) = tok {
                r.push(v);
            }
            proof {
                assert(split_commas(s@) == seq![s@]);
                assert(seq![s@].drop_first() =~= Seq::<Seq<char>>::empty());
                assert(channels_of_tokens(Seq::<Seq<char>>::empty()) =~= Seq::<i8>::empty());
                match channel_token_val(s@) {
                    Some(v) => {
                        assert(channels_of(s@) =~= seq![v]);
                    },
                    None => {
                        assert(channels_of(s@) =~= Seq::<i8>::empty());
                    },
                }
                assert(r@ =~= channels_of(s@));
            }
            r
        },
        Some(p) => {
            let n: usize = s.unicode_len();
            let head = s.substring_char(0, p);
            let tail = s.substring_char(p + 1, n);
            let mut r: Vec<i8> = Vec::new();
            let tok = parse_channel_token(head);
            if let Some(v) = tok {
                r.push(v);
            }
            let mut rest = split_parse(tail);
            r.append(&mut rest);
            proof {
                let toks = split_commas(s@);
                assert(toks == seq![head@] + split_commas(tail@));
                assert(toks[0] == head@);
                assert(toks.drop_first() =~= split_commas(tail@));
                assert(r@ =~= channels_of(s@));
            }
            r
        },
    }
}

/// Parses a channel-group key: the channels it names, in order, with every
/// token that does not spell an in-range integer dropped.
pub fn parse_channels(channels_str: String) -> (r: Vec<i8>)
    ensures
        r@ == channels_of(channels_str@),
{
    split_parse(channels_str.as_str())
}

// ---------------------------------------------------------------------------
// Sorting a group's events ascending by timestamp (stable).
// ---------------------------------------------------------------------------

/// Inserts `e` after every event whose timestamp is not greater, so equal
/// timestamps keep their relative order.
pub open spec fn insert_sorted(v: Seq<LightData>, e: LightData) -> Seq<LightData>
    decreases v.len(),
{
    if v.len() == 0 {
        seq![e]
    } else if v.last().timestamp <= e.timestamp {
        v.push(e)
    } else {
        insert_sorted(v.drop_last(), e).push(v.last())
    }
}

/// The events of `v` in timestamp order: stable insertion sort.
pub open spec fn sort_events(v: Seq<LightData>) -> Seq<LightData>
    decreases v.len(),
{
    if v.len() == 0 {
        Seq::empty()
    } else {
        insert_sorted(sort_events(v.drop_last()), v.last())
    }
}

proof fn lemma_insert_sorted_props(v: Seq<LightData>, e: LightData)
    requires
        events_sorted(v),
    ensures
        events_sorted(insert_sorted(v, e)),
        insert_sorted(v, e).to_multiset() == v.to_multiset().insert(e),
        insert_sorted(v, e).len() == v.len() + 1,
        forall|k: int|
            0 <= k < insert_sorted(v, e).len() ==> insert_sorted(v, e)[k].timestamp
                <= e.timestamp || (v.len() > 0 && insert_sorted(v, e)[k].timestamp
                <= v.last().timestamp),
    decreases v.len(),
{
    broadcast use vstd::seq_lib::group_to_multiset_ensures;

    if v.len() == 0 {
        assert(seq![e] =~= Seq::<LightData>::empty().push(e));
        assert(Seq::<LightData>::empty() =~= v);
    } else if v.last().timestamp <= e.timestamp {
        // v.push(e) is sorted because every event of v is at most v.last().
    } else {
        let vd = v.drop_last();
        assert(events_sorted(vd)) by {
            assert(forall|i: int, j: int|
                0 <= i < j < vd.len() ==> vd[i] == v[i] && vd[j] == v[j]);
        }
        lemma_insert_sorted_props(vd, e);
        let w = insert_sorted(vd, e);
        assert(insert_sorted(v, e) == w.push(v.last()));
        assert(forall|k: int| 0 <= k < w.len() ==> w.push(v.last())[k] == w[k]);
        assert(events_sorted(w.push(v.last()))) by {
            assert(forall|k: int|
                0 <= k < w.len() ==> w[k].timestamp <= v.last().timestamp) by {
                assert(vd.len() > 0 ==> vd.last().timestamp <= v.last().timestamp);
            }
        }
        assert(v =~= vd.push(v.last()));
        assert(v.to_multiset() =~= vd.to_multiset().insert(v.last()));
        assert(w.push(v.last()).to_multiset() =~= w.to_multiset().insert(v.last()));
        assert(w.to_multiset().insert(v.last()) =~= vd.to_multiset().insert(e).insert(
            v.last(),
        ));
        assert(vd.to_multiset().insert(e).insert(v.last()) =~= vd.to_multiset().insert(
            v.last(),
        ).insert(e));
    }
}

proof fn lemma_sort_events_props(v: Seq<LightData>)
    ensures
        events_sorted(sort_events(v)),
        sort_events(v).to_multiset() == v.to_multiset(),
        sort_events(v).len() == v.len(),
    decreases v.len(),
{
    broadcast use vstd::seq_lib::group_to_multiset_ensures;

    if v.len() == 0 {
    } else {
        let vd = v.drop_last();
        lemma_sort_events_props(vd);
        lemma_insert_sorted_props(sort_events(vd), v.last());
        assert(v =~= vd.push(v.last()));
        assert(v.to_multiset() =~= vd.to_multiset().insert(v.last()));
    }
}

/// Where `e` lands when inserted into sorted `v`: splitting `v` at the first
/// index (from the right) whose event is no later than `e`.
proof fn lemma_insert_sorted_at(v: Seq<LightData>, e: LightData, j: int)
    requires
        0 <= j <= v.len(),
        forall|k: int| j <= k < v.len() ==> v[k].timestamp > e.timestamp,
        j > 0 ==> v[j - 1].timestamp <= e.timestamp,
    ensures
        insert_sorted(v, e) == v.insert(j, e),
    decreases v.len(),
{
    if j == v.len() {
        if v.len() == 0 {
            assert(seq![e] =~= v.insert(j, e));
        } else {
            assert(v.push(e) =~= v.insert(j, e));
        }
    } else {
        let vd = v.drop_last();
        lemma_insert_sorted_at(vd, e, j);
        assert(vd.insert(j, e).push(v.last()) =~= v.insert(j, e));
    }
}

/// Inserts one event into an already-sorted vector at its stable position.
fn insert_event(out: &mut Vec<LightData>, e: LightData)
    requires
        events_sorted(old(out)@),
    ensures
        final(out)@ == insert_sorted(old(out)@, e),
{
    let mut j: usize = out.len();
    while j > 0 && out[j - 1].timestamp > e.timestamp
        invariant
            j <= out@.len(),
            out@ == old(out)@,
            forall|k: int| j <= k < out@.len() ==> out@[k].timestamp > e.timestamp,
        decreases j,
    {
        j = j - 1;
    }
    proof {
        lemma_insert_sorted_at(out@, e, j as int);
    }
    out.insert(j, e);
}

// ---------------------------------------------------------------------------
// The cue document grammar: a flat object of string keys to objects of
// timestamp-string keys and integer type codes, with structured-data
// punctuation and whitespace.
// ---------------------------------------------------------------------------

/// First position at or after `i` holding no whitespace.
pub open spec fn ws_end(s: Seq<char>, i: int) -> int
    decreases s.len() - i,
{
    if 0 <= i && i < s.len() && is_space(s[i]) {
        ws_end(s, i + 1)
    } else {
        i
    }
}

/// Position of the closing quote of a string body starting at `i`, or `-1`
/// when the string never closes or holds an escape; the grammar takes
/// string bodies literally.
pub open spec fn qstring_end(s: Seq<char>, i: int) -> int
    decreases s.len() - i,
{
    if 0 <= i && i < s.len() {
        if s[i] == '"' {
            i
        } else if s[i] == '\\' {
            -1
        } else {
            qstring_end(s, i + 1)
        }
    } else {
        -1
    }
}

/// A quoted string at `i`: its body and the position after the close quote.
pub open spec fn parse_qstring(s: Seq<char>, i: int) -> Option<(Seq<char>, int)> {
    if 0 <= i && i < s.len() && s[i] == '"' {
        let e = qstring_end(s, i + 1);
        if e >= 0 {
            Some((s.subrange(i + 1, e), e + 1))
        } else {
            None
        }
    } else {
        None
    }
}

/// End of the digit run starting at `i`.
pub open spec fn digits_end(s: Seq<char>, i: int) -> int
    decreases s.len() - i,
{
    if 0 <= i && i < s.len() && is_digit(s[i]) {
        digits_end(s, i + 1)
    } else {
        i
    }
}

/// A bare integer at `i`: an optional minus sign and a non-empty digit run.
pub open spec fn parse_number(s: Seq<char>, i: int) -> Option<(int, int)> {
    if 0 <= i && i < s.len() && s[i] == '-' {
        let e = digits_end(s, i + 1);
        if e > i + 1 {
            Some((-digits_val(s.subrange(i + 1, e)), e))
        } else {
            None
        }
    } else {
        let e = digits_end(s, i);
        if e > i {
            Some((digits_val(s.subrange(i, e)), e))
        } else {
            None
        }
    }
}

/// One timestamp entry: a quoted integer key, a colon, a type code.
pub open spec fn parse_ipair(s: Seq<char>, i: int) -> Option<((int, int), int)> {
    match parse_qstring(s, i) {
        None => None,
        Some((key, j)) => match int_token_val(key) {
            None => None,
            Some(ts) => {
                let k = ws_end(s, j);
                if 0 <= k < s.len() && s[k] == ':' {
                    let m = ws_end(s, k + 1);
                    match parse_number(s, m) {
                        None => None,
                        Some((code, e)) => Some(((ts, code), e)),
                    }
                } else {
                    None
                }
            },
        },
    }
}

/// One or more timestamp entries, comma-separated, up to and including the
/// closing brace.
pub open spec fn parse_ipairs(s: Seq<char>, i: int) -> Option<(Seq<(int, int)>, int)>
    decreases s.len() - i,
{
    match parse_ipair(s, i) {
        None => None,
        Some((p, j)) => {
            let k = ws_end(s, j);
            if 0 <= k < s.len() && s[k] == ',' {
                let m = ws_end(s, k + 1);
                if i < m && m <= s.len() {
                    match parse_ipairs(s, m) {
                        None => None,
                        Some((rest, e)) => Some((seq![p] + rest, e)),
                    }
                } else {
                    None
                }
            } else if 0 <= k < s.len() && s[k] == '}' {
                Some((seq![p], k + 1))
            } else {
                None
            }
        },
    }
}

/// A timestamp object: possibly empty, brace-delimited.
pub open spec fn parse_iobj(s: Seq<char>, i: int) -> Option<(Seq<(int, int)>, int)> {
    if 0 <= i && i < s.len() && s[i] == '{' {
        let j = ws_end(s, i + 1);
        if 0 <= j < s.len() && s[j] == '}' {
            Some((Seq::empty(), j + 1))
        } else {
            parse_ipairs(s, j)
        }
    } else {
        None
    }
}

/// One channel-group entry: a quoted key, a colon, a timestamp object.
pub open spec fn parse_opair(s: Seq<char>, i: int) -> Option<
    ((Seq<char>, Seq<(int, int)>), int),
> {
    match parse_qstring(s, i) {
        None => None,
        Some((key, j)) => {
            let k = ws_end(s, j);
            if 0 <= k < s.len() && s[k] == ':' {
                let m = ws_end(s, k + 1);
                match parse_iobj(s, m) {
                    None => None,
                    Some((entries, e)) => Some(((key, entries), e)),
                }
            } else {
                None
            }
        },
    }
}

/// One or more channel-group entries, comma-separated, up to and including
/// the closing brace.
pub open spec fn parse_opairs(s: Seq<char>, i: int) -> Option<
    (Seq<(Seq<char>, Seq<(int, int)>)>, int),
>
    decreases s.len() - i,
{
    match parse_opair(s, i) {
        None => None,
        Some((p, j)) => {
            let k = ws_end(s, j);
            if 0 <= k < s.len() && s[k] == ',' {
                let m = ws_end(s, k + 1);
                if i < m && m <= s.len() {
                    match parse_opairs(s, m) {
                        None => None,
                        Some((rest, e)) => Some((seq![p] + rest, e)),
                    }
                } else {
                    None
                }
            } else if 0 <= k < s.len() && s[k] == '}' {
                Some((seq![p], k + 1))
            } else {
                None
            }
        },
    }
}

/// The whole cue document: one brace-delimited object and nothing else.
pub open spec fn parse_doc(s: Seq<char>) -> Option<Seq<(Seq<char>, Seq<(int, int)>)>> {
    let i = ws_end(s, 0);
    if 0 <= i < s.len() && s[i] == '{' {
        let j = ws_end(s, i + 1);
        if 0 <= j < s.len() && s[j] == '}' {
            if ws_end(s, j + 1) == s.len() {
                Some(Seq::empty())
            } else {
                None
            }
        } else {
            match parse_opairs(s, j) {
                None => None,
                Some((doc, e)) => {
                    if ws_end(s, e) == s.len() {
                        Some(doc)
                    } else {
                        None
                    }
                },
            }
        }
    } else {
        None
    }
}

/// A parsed timestamp fits the clock, a parsed code fits a type byte.
pub open spec fn pair_in_range(p: (int, int)) -> bool {
    &&& i32::MIN <= p.0 <= i32::MAX
    &&& -128 <= p.1 <= 127
}

pub open spec fn events_in_range(evs: Seq<(int, int)>) -> bool {
    forall|k: int| 0 <= k < evs.len() ==> pair_in_range(evs[k])
}

pub open spec fn doc_in_range(doc: Seq<(Seq<char>, Seq<(int, int)>)>) -> bool {
    forall|g: int| 0 <= g < doc.len() ==> events_in_range(doc[g].1)
}

/// Type code `1` switches a channel on; every other code switches it off.
pub open spec fn normalize_code(code: int) -> LightType {
    if code == 1 {
        LightType::On
    } else {
        LightType::Off
    }
}

pub open spec fn event_of_pair(p: (int, int)) -> LightData {
    LightData { timestamp: p.0 as i32, light_type: normalize_code(p.1) }
}

/// The channel group a document entry denotes: parsed channels, normalized
/// and sorted events, cursor at the start.
pub open spec fn group_of_pair(key: Seq<char>, evs: Seq<(int, int)>) -> ChannelDataView {
    ChannelDataView {
        channels: channels_of(key),
        data: sort_events(evs.map_values(|p: (int, int)| event_of_pair(p))),
        index: 0,
    }
}

pub open spec fn cue_groups_of(doc: Seq<(Seq<char>, Seq<(int, int)>)>) -> Seq<
    ChannelDataView,
> {
    doc.map_values(|p: (Seq<char>, Seq<(int, int)>)| group_of_pair(p.0, p.1))
}

pub open spec fn views_of(gs: Seq<ChannelData>) -> Seq<ChannelDataView> {
    gs.map_values(|g: ChannelData| g@)
}

fn ws_skip(s: &str, i: usize) -> (r: usize)
    requires
        i <= s@.len(),
    ensures
        r as int == ws_end(s@, i as int),
        i <= r <= s@.len(),
{
    let n: usize = s.unicode_len();
    let mut r: usize = i;
    while r < n
        invariant
            i <= r <= n,
            n == s@.len(),
            ws_end(s@, i as int) == ws_end(s@, r as int),
        ensures
            i <= r <= n,
            n == s@.len(),
            ws_end(s@, i as int) == r as int,
        decreases n - r,
    {
        let c = s.get_char(r);
        if c != ' ' && c != '\t' && c != '\n' && c != '\r' {
            break;
        }
        r = r + 1;
    }
    r
}

fn parse_qstring_exec<'a>(s: &'a str, i: usize) -> (r: Option<(&'a str, usize)>)
    requires
        i <= s@.len(),
    ensures
        match r {
            Some((content, e)) => parse_qstring(s@, i as int) == Some((content@, e as int))
                && i < e <= s@.len(),
            None => parse_qstring(s@, i as int) is None,
        },
{
    let n: usize = s.unicode_len();
    if i >= n || s.get_char(i) != '"' {
        return None;
    }
    let mut e: usize = i + 1;
    while e < n
        invariant
            i + 1 <= e <= n,
            n == s@.len(),
            s@[i as int] == '"',
            qstring_end(s@, i + 1) == qstring_end(s@, e as int),
        decreases n - e,
    {
        let c = s.get_char(e);
        if c == '"' {
            let content = s.substring_char(i + 1, e);
            return Some((content, e + 1));
        }
        if c == '\\' {
            return None;
        }
        e = e + 1;
    }
    None
}

/// Scans the digit run from `i`: its end, its value, and whether the value
/// outgrew the largest timestamp magnitude the store accepts.
fn scan_digits(s: &str, i: usize) -> (r: (usize, u64, bool))
    requires
        i <= s@.len(),
    ensures
        ({
            let (e, val, over) = r;
            &&& e as int == digits_end(s@, i as int)
            &&& i <= e <= s@.len()
            &&& (!over ==> val as int == digits_val(s@.subrange(i as int, e as int)) && val
                <= 0x8000_0000u64)
            &&& (over ==> digits_val(s@.subrange(i as int, e as int)) > 0x8000_0000)
        }),
{
    let n: usize = s.unicode_len();
    let mut e: usize = i;
    let mut val: u64 = 0;
    let mut over = false;
    proof {
        assert(s@.subrange(i as int, i as int) =~= Seq::<char>::empty());
    }
    while e < n
        invariant
            i <= e <= n,
            n == s@.len(),
            digits_end(s@, i as int) == digits_end(s@, e as int),
            !over ==> val as int == digits_val(s@.subrange(i as int, e as int)) && val
                <= 0x8000_0000u64,
            over ==> digits_val(s@.subrange(i as int, e as int)) > 0x8000_0000,
        ensures
            i <= e <= n,
            n == s@.len(),
            e as int == digits_end(s@, i as int),
            !over ==> val as int == digits_val(s@.subrange(i as int, e as int)) && val
                <= 0x8000_0000u64,
            over ==> digits_val(s@.subrange(i as int, e as int)) > 0x8000_0000,
        decreases n - e,
    {
        let c = s.get_char(e);
        let u = c as u32;
        if u < 48 || u > 57 {
            break;
        }
        proof {
            let p1 = s@.subrange(i as int, e + 1);
            assert(p1.drop_last() =~= s@.subrange(i as int, e as int));
            assert(p1.last() == s@[e as int]);
        }
        if over {
        } else {
            val = val * 10 + ((u - 48) as u64);
            if val > 0x8000_0000u64 {
                over = true;
            }
        }
        e = e + 1;
    }
    (e, val, over)
}

/// A bare integer at `i`, with its magnitude capped as in [`scan_digits`].
fn parse_number_exec(s: &str, i: usize) -> (r: Option<(i64, bool, usize)>)
    requires
        i <= s@.len(),
    ensures
        match r {
            Some((val, over, e)) => i < e <= s@.len() && (parse_number(s@, i as int) matches Some(
                (v, e2),
            ) && e2 == e && (if over {
                v > 0x8000_0000 || v < -0x8000_0000
            } else {
                v == val && -0x8000_0000 <= v <= 0x8000_0000
            })),
            None => parse_number(s@, i as int) is None,
        },
{
    let n: usize = s.unicode_len();
    if i < n && s.get_char(i) == '-' {
        let (e, val, over) = scan_digits(s, i + 1);
        if e == i + 1 {
            return None;
        }
        if over {
            Some((0, true, e))
        } else {
            Some((0 - (val as i64), false, e))
        }
    } else {
        let (e, val, over) = scan_digits(s, i);
        if e == i {
            return None;
        }
        if over {
            Some((0, true, e))
        } else {
            Some((val as i64, false, e))
        }
    }
}

/// The integer a whole timestamp key spells, with its magnitude capped as
/// in [`scan_digits`]; `None` when the key is no integer token.
fn parse_ts_token(t: &str) -> (r: Option<(i64, bool)>)
    ensures
        match r {
            Some((val, over)) => int_token_val(t@) matches Some(v) && (if over {
                v > 0x8000_0000 || v < -0x8000_0000
            } else {
                v == val && -0x8000_0000 <= v <= 0x8000_0000
            }),
            None => int_token_val(t@) is None,
        },
{
    let n: usize = t.unicode_len();
    if n == 0 {
        return None;
    }
    let c0 = t.get_char(0);
    let has_sign = c0 == '-' || c0 == '+';
    let neg = c0 == '-';
    let sd: usize = if has_sign {
        1
    } else {
        0
    };
    proof {
        if has_sign {
            assert(t@.drop_first() =~= t@.subrange(1, n as int));
        }
    }
    if sd == n {
        return None;
    }
    let (e, val, over) = scan_digits(t, sd);
    if e < n {
        // A non-digit sits in the run: no integer token.
        proof {
            lemma_digits_end_stop(t@, sd as int);
            let digits = t@.subrange(sd as int, n as int);
            assert(digits[e - sd] == t@[e as int]);
            assert(!all_digits(digits));
        }
        return None;
    }
    proof {
        let digits = t@.subrange(sd as int, n as int);
        assert(t@.subrange(sd as int, e as int) =~= digits);
        assert forall|k: int| 0 <= k < digits.len() implies is_digit(digits[k]) by {
            assert(digits[k] == t@[sd + k]);
            lemma_digits_end_digits(t@, sd as int, sd + k);
        }
        assert(all_digits(digits));
        if has_sign {
            assert(digits =~= t@.drop_first());
        } else {
            assert(digits =~= t@);
        }
    }
    if neg {
        if over {
            Some((0, true))
        } else {
            Some((0 - (val as i64), false))
        }
    } else {
        if over {
            Some((0, true))
        } else {
            Some((val as i64, false))
        }
    }
}

/// A digit run stops only at the end of the text or at a non-digit.
proof fn lemma_digits_end_stop(s: Seq<char>, i: int)
    requires
        0 <= i <= s.len(),
    ensures
        i <= digits_end(s, i) <= s.len(),
        digits_end(s, i) < s.len() ==> !is_digit(s[digits_end(s, i)]),
    decreases s.len() - i,
{
    if i < s.len() && is_digit(s[i]) {
        lemma_digits_end_stop(s, i + 1);
    }
}

/// Every position of a completed digit run holds a digit.
proof fn lemma_digits_end_digits(s: Seq<char>, i: int, k: int)
    requires
        0 <= i <= s.len(),
        i <= k < digits_end(s, i),
    ensures
        is_digit(s[k]),
    decreases s.len() - i,
{
    if i < s.len() && is_digit(s[i]) {
        if k > i {
            lemma_digits_end_digits(s, i + 1, k);
        }
    }
}

/// Sorts a group's events ascending by timestamp, keeping the relative
/// order of events that share one.
fn sort_events_exec(v: &Vec<LightData>) -> (r: Vec<LightData>)
    ensures
        r@ == sort_events(v@),
        events_sorted(r@),
        r@.to_multiset() == v@.to_multiset(),
{
    let mut out: Vec<LightData> = Vec::new();
    let mut i: usize = 0;
    while i < v.len()
        invariant
            i <= v@.len(),
            out@ == sort_events(v@.subrange(0, i as int)),
            events_sorted(out@),
        decreases v@.len() - i,
    {
        proof {
            let p1 = v@.subrange(0, i + 1);
            assert(p1.drop_last() =~= v@.subrange(0, i as int));
            assert(p1.last() == v@[i as int]);
            lemma_insert_sorted_props(out@, v@[i as int]);
        }
        insert_event(&mut out, v[i]);
        i = i + 1;
    }
    proof {
        assert(v@.subrange(0, v@.len() as int) =~= v@);
        lemma_sort_events_props(v@);
    }
    out
}

fn parse_ipair_exec(s: &str, i: usize) -> (r: Result<(Option<LightData>, usize), ()>)
    requires
        i <= s@.len(),
    ensures
        match r {
            Ok((evo, e)) => {
                &&& i < e <= s@.len()
                &&& parse_ipair(s@, i as int) matches Some((p, e2)) && e2 == e && (evo is Some
                    <==> pair_in_range(p)) && (evo matches Some(ev) ==> ev == event_of_pair(p))
            },
            Err(_) => parse_ipair(s@, i as int) is None,
        },
{
    let n: usize = s.unicode_len();
    let (key, j) = match parse_qstring_exec(s, i) {
        None => {
            return Err(());
        },
        Some(x) => x,
    };
    let (tsv, ts_over) = match parse_ts_token(key) {
        None => {
            return Err(());
        },
        Some(x) => x,
    };
    let k = ws_skip(s, j);
    if k >= n || s.get_char(k) != ':' {
        return Err(());
    }
    let m = ws_skip(s, k + 1);
    let (code, code_over, e) = match parse_number_exec(s, m) {
        None => {
            return Err(());
        },
        Some(x) => x,
    };
    let in_range = !ts_over && -2147483648i64 <= tsv && tsv <= 2147483647i64 && !code_over
        && -128i64 <= code && code <= 127i64;
    let evo = if in_range {
        Some(
            LightData {
                timestamp: tsv as i32,
                light_type: if code == 1 {
                    LightType::On
                } else {
                    LightType::Off
                },
            },
        )
    } else {
        None
    };
    Ok((evo, e))
}

fn parse_ipairs_exec(s: &str, i: usize) -> (r: Result<(Vec<LightData>, usize, bool), ()>)
    requires
        i <= s@.len(),
    ensures
        match r {
            Ok((evs, e, rok)) => {
                &&& i < e <= s@.len()
                &&& parse_ipairs(s@, i as int) matches Some((ps, e2)) && e2 == e && (rok
                    <==> events_in_range(ps)) && (rok ==> evs@ == ps.map_values(
                    |p: (int, int)| event_of_pair(p),
                ))
            },
            Err(_) => parse_ipairs(s@, i as int) is None,
        },
    decreases s@.len() - i,
{
    let n: usize = s.unicode_len();
    let (evo, j) = match parse_ipair_exec(s, i) {
        Err(_) => {
            return Err(());
        },
        Ok(x) => x,
    };
    let k = ws_skip(s, j);
    if k < n && s.get_char(k) == ',' {
        let m = ws_skip(s, k + 1);
        match parse_ipairs_exec(s, m) {
            Err(_) => Err(()),
            Ok((rest, e, rok2)) => {
                let mut rest = rest;
                let rok = evo.is_some() && rok2;
                let mut evs: Vec<LightData> = Vec::new();
                if let Some(ev) = evo {
                    evs.push(ev);
                }
                evs.append(&mut rest);
                proof {
                    let p = parse_ipair(s@, i as int).unwrap().0;
                    let (rest_ps, _e3) = parse_ipairs(s@, m as int).unwrap();
                    let ps = seq![p] + rest_ps;
                    assert(ps[0] == p);
                    assert(forall|q: int| 0 <= q < rest_ps.len() ==> ps[q + 1] == rest_ps[q]);
                    assert(events_in_range(ps) <==> pair_in_range(p) && events_in_range(
                        rest_ps,
                    )) by {
                        if pair_in_range(p) && events_in_range(rest_ps) {
                            assert forall|q: int| 0 <= q < ps.len() implies pair_in_range(
                                ps[q],
                            ) by {
                                if q > 0 {
                                    assert(ps[q] == rest_ps[q - 1]);
                                }
                            }
                        }
                    }
                    if rok {
                        let f = |p: (int, int)| event_of_pair(p);
                        assert(evs@ =~= ps.map_values(f)) by {
                            assert(evs@ =~= seq![event_of_pair(p)] + rest_ps.map_values(f));
                        }
                    }
                }
                Ok((evs, e, rok))
            },
        }
    } else if k < n && s.get_char(k) == '}' {
        let rok = evo.is_some();
        let mut evs: Vec<LightData> = Vec::new();
        if let Some(ev) = evo {
            evs.push(ev);
        }
        proof {
            let p = parse_ipair(s@, i as int).unwrap().0;
            let ps = seq![p];
            assert(ps[0] == p);
            assert(events_in_range(ps) <==> pair_in_range(p)) by {
                if pair_in_range(p) {
                    assert forall|q: int| 0 <= q < ps.len() implies pair_in_range(ps[q]) by {
                        assert(ps[q] == p);
                    }
                }
            }
            if rok {
                assert(evs@ =~= ps.map_values(|p: (int, int)| event_of_pair(p)));
            }
        }
        Ok((evs, k + 1, rok))
    } else {
        Err(())
    }
}

fn parse_iobj_exec(s: &str, i: usize) -> (r: Result<(Vec<LightData>, usize, bool), ()>)
    requires
        i <= s@.len(),
    ensures
        match r {
            Ok((evs, e, rok)) => {
                &&& i < e <= s@.len()
                &&& parse_iobj(s@, i as int) matches Some((ps, e2)) && e2 == e && (rok
                    <==> events_in_range(ps)) && (rok ==> evs@ == ps.map_values(
                    |p: (int, int)| event_of_pair(p),
                ))
            },
            Err(_) => parse_iobj(s@, i as int) is None,
        },
{
    let n: usize = s.unicode_len();
    if i >= n || s.get_char(i) != '{' {
        return Err(());
    }
    let j = ws_skip(s, i + 1);
    if j < n && s.get_char(j) == '}' {
        let evs: Vec<LightData> = Vec::new();
        proof {
            let ps = Seq::<(int, int)>::empty();
            assert(events_in_range(ps));
            assert(evs@ =~= ps.map_values(|p: (int, int)| event_of_pair(p)));
        }
        Ok((evs, j + 1, true))
    } else {
        parse_ipairs_exec(s, j)
    }
}

fn parse_opair_exec(s: &str, i: usize) -> (r: Result<(ChannelData, usize, bool), ()>)
    requires
        i <= s@.len(),
    ensures
        match r {
            Ok((group, e, rok)) => {
                &&& i < e <= s@.len()
                &&& parse_opair(s@, i as int) matches Some((p, e2)) && e2 == e && (rok
                    <==> events_in_range(p.1)) && (rok ==> group@ == group_of_pair(p.0, p.1))
                &&& group@.wf()
                &&& group@.index == 0
            },
            Err(_) => parse_opair(s@, i as int) is None,
        },
{
    let n: usize = s.unicode_len();
    let (key, j) = match parse_qstring_exec(s, i) {
        None => {
            return Err(());
        },
        Some(x) => x,
    };
    let channels = split_parse(key);
    let k = ws_skip(s, j);
    if k >= n || s.get_char(k) != ':' {
        return Err(());
    }
    let m = ws_skip(s, k + 1);
    let (evs, e, rok) = match parse_iobj_exec(s, m) {
        Err(_) => {
            return Err(());
        },
        Ok(x) => x,
    };
    let data = sort_events_exec(&evs);
    Ok((ChannelData { channels, data, index: 0 }, e, rok))
}

fn parse_opairs_exec(s: &str, i: usize) -> (r: Result<(Vec<ChannelData>, usize, bool), ()>)
    requires
        i <= s@.len(),
    ensures
        match r {
            Ok((groups, e, rok)) => {
                &&& i < e <= s@.len()
                &&& parse_opairs(s@, i as int) matches Some((ps, e2)) && e2 == e && (rok
                    <==> doc_in_range(ps)) && (rok ==> views_of(groups@) == cue_groups_of(ps))
                &&& forall|g: int|
                    0 <= g < groups@.len() ==> (#[trigger] groups@[g]@).wf() && groups@[g]@.index
                        == 0
            },
            Err(_) => parse_opairs(s@, i as int) is None,
        },
    decreases s@.len() - i,
{
    let n: usize = s.unicode_len();
    let (group, j, rok1) = match parse_opair_exec(s, i) {
        Err(_) => {
            return Err(());
        },
        Ok(x) => x,
    };
    let k = ws_skip(s, j);
    if k < n && s.get_char(k) == ',' {
        let m = ws_skip(s, k + 1);
        match parse_opairs_exec(s, m) {
            Err(_) => Err(()),
            Ok((rest, e, rok2)) => {
                let mut rest = rest;
                let ghost rest0 = rest@;
                let rok = rok1 && rok2;
                let mut groups: Vec<ChannelData> = Vec::new();
                groups.push(group);
                groups.append(&mut rest);
                proof {
                    let p = parse_opair(s@, i as int).unwrap().0;
                    let (rest_ps, _e3) = parse_opairs(s@, m as int).unwrap();
                    let ps = seq![p] + rest_ps;
                    assert(ps[0] == p);
                    assert(forall|q: int| 0 <= q < rest_ps.len() ==> ps[q + 1] == rest_ps[q]);
                    assert(doc_in_range(ps) <==> events_in_range(p.1) && doc_in_range(
                        rest_ps,
                    )) by {
                        if events_in_range(p.1) && doc_in_range(rest_ps) {
                            assert forall|q: int| 0 <= q < ps.len() implies events_in_range(
                                ps[q].1,
                            ) by {
                                if q > 0 {
                                    assert(ps[q] == rest_ps[q - 1]);
                                }
                            }
                        }
                    }
                    if rok {
                        assert(views_of(groups@) =~= cue_groups_of(ps)) by {
                            assert(views_of(groups@) =~= seq![group@] + views_of(rest0));
                        }
                    }
                }
                Ok((groups, e, rok))
            },
        }
    } else if k < n && s.get_char(k) == '}' {
        let mut groups: Vec<ChannelData> = Vec::new();
        groups.push(group);
        proof {
            let p = parse_opair(s@, i as int).unwrap().0;
            let ps = seq![p];
            assert(ps[0] == p);
            assert(doc_in_range(ps) <==> events_in_range(p.1)) by {
                if events_in_range(p.1) {
                    assert forall|q: int| 0 <= q < ps.len() implies events_in_range(ps[q].1) by {
                        assert(ps[q] == p);
                    }
                }
            }
            if rok1 {
                assert(views_of(groups@) =~= cue_groups_of(ps));
            }
        }
        Ok((groups, k + 1, rok1))
    } else {
        Err(())
    }
}

/// Why a cue file's contents were rejected: the text does not follow the
/// document grammar, or a timestamp or type code does not fit its type.
#[derive(Clone, Copy, PartialEq, Eq, Structural, Debug)]
pub enum CueParseError {
    Syntax,
    Value,
}

/// Parses a whole cue file into its channel groups: per group the parsed
/// channel list and the normalized events sorted ascending by timestamp,
/// with every cursor at the start.  Malformed text is a fatal parse error,
/// never a silently degraded result.
pub fn gather_light_data(text: &str) -> (r: Result<Vec<ChannelData>, CueParseError>)
    ensures
        match r {
            Ok(groups) => {
                &&& parse_doc(text@) matches Some(doc) && doc_in_range(doc) && views_of(groups@)
                    == cue_groups_of(doc)
                &&& forall|g: int|
                    0 <= g < groups@.len() ==> (#[trigger] groups@[g]@).wf() && groups@[g]@.index
                        == 0
            },
            Err(e) => {
                &&& (e == CueParseError::Syntax <==> parse_doc(text@) is None)
                &&& (e == CueParseError::Value <==> (parse_doc(text@) matches Some(doc)
                    && !doc_in_range(doc)))
            },
        },
{
    let n: usize = text.unicode_len();
    let i = ws_skip(text, 0);
    if i >= n || text.get_char(i) != '{' {
        return Err(CueParseError::Syntax);
    }
    let j = ws_skip(text, i + 1);
    if j < n && text.get_char(j) == '}' {
        let e = ws_skip(text, j + 1);
        if e == n {
            let groups: Vec<ChannelData> = Vec::new();
            proof {
                let doc = Seq::<(Seq<char>, Seq<(int, int)>)>::empty();
                assert(doc_in_range(doc));
                assert(views_of(groups@) =~= cue_groups_of(doc));
            }
            Ok(groups)
        } else {
            Err(CueParseError::Syntax)
        }
    } else {
        match parse_opairs_exec(text, j) {
            Err(_) => Err(CueParseError::Syntax),
            Ok((groups, e, rok)) => {
                let e3 = ws_skip(text, e);
                if e3 < n {
                    Err(CueParseError::Syntax)
                } else if rok {
                    Ok(groups)
                } else {
                    Err(CueParseError::Value)
                }
            },
        }
    }
}

/// The cue file location a media path determines: the media extension of
/// the path's final component replaced by the structured-data extension;
/// a component without an extension has it appended.
pub open spec fn cue_path_of(path: Seq<char>) -> Seq<char> {
    let b = last_pos(path, '/') + 1;
    let base = path.subrange(b, path.len() as int);
    let d = last_pos(base, '.');
    if d <= 0 {
        path + seq!['.'] + seq!['j', 's', 'o', 'n']
    } else {
        path.subrange(0, b + d + 1) + seq!['j', 's', 'o', 'n']
    }
}

/// Derives the cue file path belonging to a media path.
pub fn cue_path_for(path: &str) -> (r: String)
    ensures
        r@ == cue_path_of(path@),
{
    let n: usize = path.unicode_len();

    // One past the last '/' of the path.
    proof {
        assert(path@.subrange(0, n as int) =~= path@);
    }
    let mut start: usize = 0;
    let mut i: usize = 0;
    while i < n
        invariant
            i <= n,
            n == path@.len(),
            start <= i,
            start as int == last_pos(path@.subrange(0, i as int), '/') + 1,
        decreases n - i,
    {
        let c = path.get_char(i);
        proof {
            let p1 = path@.subrange(0, i + 1);
            assert(p1.drop_last() =~= path@.subrange(0, i as int));
            assert(p1[p1.len() - 1] == path@[i as int]);
        }
        if c == '/' {
            start = i + 1;
        }
        i = i + 1;
    }

    // Absolute index of the last '.' inside the final component, if any.
    let ghost base = path@.subrange(start as int, n as int);
    let mut dot: usize = 0;
    let mut has_dot = false;
    let mut j: usize = start;
    while j < n
        invariant
            start <= j <= n,
            n == path@.len(),
            base == path@.subrange(start as int, n as int),
            has_dot ==> start <= dot < j,
            last_pos(base.subrange(0, j - start), '.') == if has_dot {
                dot - start
            } else {
                -1
            },
        decreases n - j,
    {
        let c = path.get_char(j);
        proof {
            let p1 = base.subrange(0, j - start + 1);
            assert(p1.drop_last() =~= base.subrange(0, j - start));
            assert(p1[p1.len() - 1] == base[j - start] == path@[j as int]);
        }
        if c == '.' {
            dot = j;
            has_dot = true;
        }
        j = j + 1;
    }
    proof {
        assert(base.subrange(0, n - start) =~= base);
        reveal_strlit("json");
        reveal_strlit(".");
        assert(("json")@ =~= seq!['j', 's', 'o', 'n']);
        assert((".")@ =~= seq!['.']);
    }

    if has_dot && dot > start {
        let mut out = path.substring_char(0, dot + 1).to_owned();
        out.append("json");
        proof {
            assert(out@ =~= cue_path_of(path@));
        }
        out
    } else {
        let mut out = path.substring_char(0, n).to_owned();
        out.append(".");
        out.append("json");
        proof {
            assert(path@.subrange(0, n as int) =~= path@);
            assert(out@ =~= cue_path_of(path@));
        }
        out
    }
}

/// Loads the cue set for a track whose cue file held `text`, or was absent
/// (`None`): absence is the valid empty cue set, not an error.
pub fn load_cue(text: Option<&str>) -> (r: Result<Vec<ChannelData>, CueParseError>)
    ensures
        match text {
            None => r matches Ok(groups) && groups@.len() == 0,
            Some(t) => match r {
                Ok(groups) => {
                    &&& parse_doc(t@) matches Some(doc) && doc_in_range(doc) && views_of(groups@)
                        == cue_groups_of(doc)
                    &&& forall|g: int|
                        0 <= g < groups@.len() ==> (#[trigger] groups@[g]@).wf()
                            && groups@[g]@.index == 0
                },
                Err(e) => {
                    &&& (e == CueParseError::Syntax <==> parse_doc(t@) is None)
                    &&& (e == CueParseError::Value <==> (parse_doc(t@) matches Some(doc)
                        && !doc_in_range(doc)))
                },
            },
        },
{
    match text {
        None => Ok(Vec::new()),
        Some(t) => gather_light_data(t),
    }
}

} // verus!
