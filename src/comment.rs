//! Normalisation of raw comment records into render-ready entries.
use unicode_segmentation::UnicodeSegmentation;
use vstd::prelude::*;

use crate::ident::ResolveError;
use crate::text::{
    all_digits, chars_of, dec_value, find_char, find_char_in, parse_dec, parse_decimal,
    digits_value, parse_digits, strip_plus, strip_plus_exec,
    slice_of, string_of,
};

verus! {

/// The platform a comment was first posted on.
#[derive(Clone, Copy, Debug, Hash, PartialEq, Eq, Structural)]
pub enum Source {
    Bilibili,
    Gamer,
    AcFun,
    QQ,
    IQIYI,
    D,
    Dandan,
    Unknown,
}

/// `s` equals the lower-case ASCII word `w` when ASCII letters are folded.
pub open spec fn same_word(s: Seq<char>, w: Seq<char>) -> bool {
    &&& s.len() == w.len()
    &&& forall|i: int|
        0 <= i < s.len() ==> (#[trigger] s[i] == w[i] || ('a' <= w[i] <= 'z' && s[i] as u32 + 32
            == w[i] as u32))
}

/// The source that a tag names; `Unknown` for any other name.
pub open spec fn source_named(s: Seq<char>) -> Source {
    if same_word(s, seq!['b', 'i', 'l', 'i', 'b', 'i', 'l', 'i']) {
        Source::Bilibili
    } else if same_word(s, seq!['g', 'a', 'm', 'e', 'r']) {
        Source::Gamer
    } else if same_word(s, seq!['a', 'c', 'f', 'u', 'n']) {
        Source::AcFun
    } else if same_word(s, seq!['q', 'q']) {
        Source::QQ
    } else if same_word(s, seq!['i', 'q', 'i', 'y', 'i']) {
        Source::IQIYI
    } else if same_word(s, seq!['d']) {
        Source::D
    } else if same_word(s, seq!['d', 'a', 'n', 'd', 'a', 'n']) {
        Source::Dandan
    } else {
        Source::Unknown
    }
}

fn word_is(s: &Vec<char>, w: &Vec<char>) -> (r: bool)
    ensures
        r == same_word(s@, w@),
{
    if s.len() != w.len() {
        return false;
    }
    let mut i: usize = 0;
    while i < s.len()
        invariant
            s@.len() == w@.len(),
            i <= s@.len(),
            forall|k: int|
                0 <= k < i ==> (#[trigger] s@[k] == w@[k] || ('a' <= w@[k] <= 'z' && s@[k] as u32
                    + 32 == w@[k] as u32)),
        decreases s@.len() - i,
    {
        let a = s[i];
        let b = w[i];
        if !(a == b || ('a' <= b && b <= 'z' && a as u32 == b as u32 - 32)) {
            return false;
        }
        i = i + 1;
    }
    true
}

fn source_of_chars(s: &Vec<char>) -> (r: Source)
    ensures
        r == source_named(s@),
{
    if word_is(s, &vec!['b', 'i', 'l', 'i', 'b', 'i', 'l', 'i']) {
        Source::Bilibili
    } else if word_is(s, &vec!['g', 'a', 'm', 'e', 'r']) {
        Source::Gamer
    } else if word_is(s, &vec!['a', 'c', 'f', 'u', 'n']) {
        Source::AcFun
    } else if word_is(s, &vec!['q', 'q']) {
        Source::QQ
    } else if word_is(s, &vec!['i', 'q', 'i', 'y', 'i']) {
        Source::IQIYI
    } else if word_is(s, &vec!['d']) {
        Source::D
    } else if word_is(s, &vec!['d', 'a', 'n', 'd', 'a', 'n']) {
        Source::Dandan
    } else {
        Source::Unknown
    }
}

impl Source {
    /// The source that a name denotes, ignoring ASCII case.
    pub fn from_name(name: &str) -> (r: Source)
        ensures
            r == source_named(name@),
    {
        source_of_chars(&chars_of(name))
    }
}

impl<'a> From<&'a str> for Source {
    fn from(value: &'a str) -> (r: Source) {
        Source::from_name(value)
    }
}

impl<'a> vstd::std_specs::convert::FromSpecImpl<&'a str> for Source {
    open spec fn obeys_from_spec() -> bool {
        true
    }

    open spec fn from_spec(v: &'a str) -> Source {
        source_named(v@)
    }
}

/// What `char::is_numeric` says of a character.
pub uninterp spec fn numeric_char(c: char) -> bool;

/// Relies on `char::is_numeric`: Unicode numeric characters; among ASCII
/// characters exactly the digits.
#[verifier::external_body]
fn is_numeric(c: char) -> (r: bool)
    ensures
        r == numeric_char(c),
        (c as u32) < 128 ==> (r <==> '0' <= c <= '9'),
{
    c.is_numeric()
}

/// The number of user-perceived characters (extended grapheme clusters).
pub uninterp spec fn grapheme_count(s: Seq<char>) -> nat;

/// Relies on `UnicodeSegmentation::graphemes` with extended clusters: the
/// clusters of the text, none in an empty one.
#[verifier::external_body]
fn count_graphemes(s: &str) -> (r: usize)
    ensures
        r == grapheme_count(s@),
        s@.len() == 0 ==> r == 0,
{
    s.graphemes(true).count()
}

/// The source a user tag names: a numeric tag is the database's own user,
/// `[name]...` names a platform, anything else is unknown.
pub open spec fn classify(user: Seq<char>) -> Source {
    if forall|i: int| 0 <= i < user.len() ==> numeric_char(#[trigger] user[i]) {
        Source::Dandan
    } else if user.len() > 0 && user[0] == '[' {
        match find_char(user, ']', 1) {
            Some(j) => source_named(user.subrange(1, j)),
            None => Source::Unknown,
        }
    } else {
        Source::Unknown
    }
}

/// The source of a comment from its user tag.
pub fn classify_user(user: &str) -> (r: Source)
    ensures
        r == classify(user@),
{
    classify_chars(&chars_of(user))
}

fn classify_chars(u: &Vec<char>) -> (r: Source)
    ensures
        r == classify(u@),
{
    let ghost user = u@;
    let mut i: usize = 0;
    let mut numeric = true;
    while i < u.len()
        invariant
            u@ == user,
            i <= u@.len(),
            numeric == forall|k: int| 0 <= k < i ==> numeric_char(#[trigger] u@[k]),
        decreases u@.len() - i,
    {
        let n = is_numeric(u[i]);
        proof {
            if !n {
                assert(!numeric_char(u@[i as int]));
            }
        }
        numeric = numeric && n;
        i = i + 1;
    }
    if numeric {
        return Source::Dandan;
    }
    if u.len() > 0 && u[0] == '[' {
        match find_char_in(u, ']', 1) {
            Some(j) => source_of_chars(&slice_of(u, 1, j)),
            None => Source::Unknown,
        }
    } else {
        Source::Unknown
    }
}

/// `s` split at its first comma, if it has one.
pub open spec fn split_comma(s: Seq<char>) -> Option<(Seq<char>, Seq<char>)> {
    match find_char(s, ',', 0) {
        Some(i) => Some((s.take(i), s.skip(i + 1))),
        None => None,
    }
}

fn split_comma_exec(s: &Vec<char>) -> (r: Option<(Vec<char>, Vec<char>)>)
    ensures
        r is Some <==> split_comma(s@) is Some,
        r matches Some((a, b)) ==> (a@, b@) == split_comma(s@)->0,
{
    let n = s.len();
    match find_char_in(s, ',', 0) {
        Some(i) => {
            let a = slice_of(s, 0, i);
            let b = slice_of(s, i + 1, n);
            assert(a@ =~= s@.take(i as int));
            assert(b@ =~= s@.skip(i + 1));
            Some((a, b))
        },
        None => None,
    }
}

/// The time, color and user fields of a position string
/// `time,mode,color,user`; the user field keeps any further commas.
pub open spec fn position_fields(p: Seq<char>) -> Option<(Seq<char>, Seq<char>, Seq<char>)> {
    match split_comma(p) {
        None => None,
        Some((time, r1)) => match split_comma(r1) {
            None => None,
            Some((_mode, r2)) => match split_comma(r2) {
                None => None,
                Some((color, user)) => Some((time, color, user)),
            },
        },
    }
}

/// Digit `i` after the decimal point, zero past the end.
pub open spec fn frac_digit(f: Seq<char>, i: int) -> nat {
    if i < f.len() {
        crate::text::digit_val(f[i])
    } else {
        0
    }
}

/// The place value of digit `i` after the point, in thousandths.
pub open spec fn frac_scale(i: int) -> nat {
    if i == 0 {
        100
    } else if i == 1 {
        10
    } else {
        1
    }
}

/// The first `j` digits after the decimal point, in thousandths.
pub open spec fn frac_upto(f: Seq<char>, j: int) -> nat
    decreases j,
{
    if j <= 0 {
        0
    } else {
        frac_upto(f, j - 1) + frac_digit(f, j - 1) * frac_scale(j - 1)
    }
}

/// The first three digits after the decimal point, as thousandths.
pub open spec fn frac_ms(f: Seq<char>) -> nat {
    frac_upto(f, 3)
}

/// A time in seconds as whole milliseconds. It is written with an
/// optional `+`, then digits, or digits with a decimal point and digits on
/// at least one side of it; digits past the third decimal are dropped.
pub open spec fn parse_time(s: Seq<char>) -> Option<u64> {
    let b = strip_plus(s);
    match find_char(b, '.', 0) {
        None => match (if b.len() > 0 {
            digits_value(b)
        } else {
            None
        }) {
            Some(v) => if v * 1000 <= u64::MAX {
                Some((v * 1000) as u64)
            } else {
                None
            },
            None => None,
        },
        Some(i) => {
            let ip = b.take(i);
            let fp = b.skip(i + 1);
            if (ip.len() > 0 || fp.len() > 0) && all_digits(ip) && all_digits(fp) && dec_value(ip)
                * 1000 + frac_ms(fp) <= u64::MAX {
                Some((dec_value(ip) * 1000 + frac_ms(fp)) as u64)
            } else {
                None
            }
        },
    }
}

fn digits_only(v: &Vec<char>) -> (r: bool)
    ensures
        r == all_digits(v@),
{
    let mut k: usize = 0;
    while k < v.len()
        invariant
            k <= v@.len(),
            forall|j: int| 0 <= j < k ==> crate::text::is_digit(#[trigger] v@[j]),
        decreases v@.len() - k,
    {
        if !('0' <= v[k] && v[k] <= '9') {
            assert(!crate::text::is_digit(v@[k as int]));
            return false;
        }
        k = k + 1;
    }
    true
}

/// Reads a time in seconds as milliseconds.
pub fn parse_time_ms(s: &Vec<char>) -> (r: Option<u64>)
    ensures
        r == parse_time(s@),
{
    let b = strip_plus_exec(s);
    let n = b.len();
    match find_char_in(&b, '.', 0) {
        None => match (if n > 0 {
            parse_digits(&b)
        } else {
            None
        }) {
            Some(v) => if v <= u64::MAX / 1000 {
                Some(v * 1000)
            } else {
                None
            },
            None => None,
        },
        Some(i) => {
            let ip = slice_of(&b, 0, i);
            let fp = slice_of(&b, i + 1, n);
            assert(ip@ =~= b@.take(i as int));
            assert(fp@ =~= b@.skip(i + 1));
            if ip.len() == 0 && fp.len() == 0 {
                return None;
            }
            if !digits_only(&fp) {
                return None;
            }
            let whole = match parse_digits(&ip) {
                Some(v) => v,
                None => {
                    return None;
                },
            };
            let mut frac: u64 = 0;
            let mut j: usize = 0;
            while j < 3
                invariant
                    j <= 3,
                    all_digits(fp@),
                    frac == frac_upto(fp@, j as int),
                    frac <= 999,
                    j < 3 ==> frac + frac_scale(j as int) * 10 <= 1000,
                decreases 3 - j,
            {
                let scale: u64 = if j == 0 {
                    100
                } else if j == 1 {
                    10
                } else {
                    1
                };
                if j < fp.len() {
                    assert(crate::text::is_digit(fp@[j as int]));
                    let dv: u64 = (fp[j] as u32 - '0' as u32) as u64;
                    frac = frac + dv * scale;
                }
                j = j + 1;
            }
            if whole > (u64::MAX - frac) / 1000 {
                return None;
            }
            Some(whole * 1000 + frac)
        },
    }
}

/// Time, color and source read from a position string.
#[derive(Clone, Copy, Debug, PartialEq, Eq, Structural)]
pub struct Position {
    pub time_ms: u64,
    pub r: u8,
    pub g: u8,
    pub b: u8,
    pub source: Source,
}

/// A position string read as time in milliseconds, the red, green and blue
/// bytes of a packed 24-bit color, and the source of its user tag.
pub open spec fn position_spec(p: Seq<char>) -> Option<Position> {
    match position_fields(p) {
        None => None,
        Some((t, c, u)) => match (parse_time(t), parse_dec(c)) {
            (Some(ms), Some(col)) => if col <= 0xFFFFFF {
                Some(
                    Position {
                        time_ms: ms,
                        r: (col / 65536) as u8,
                        g: ((col % 65536) / 256) as u8,
                        b: (col % 256) as u8,
                        source: classify(u),
                    },
                )
            } else {
                None
            },
            _ => None,
        },
    }
}

/// Reads a position string `time,mode,color,user`.
pub fn parse_position(p: &str) -> (r: Option<Position>)
    ensures
        r == position_spec(p@),
{
    let v = chars_of(p);
    let (time, r1) = match split_comma_exec(&v) {
        Some(x) => x,
        None => {
            return None;
        },
    };
    let (_mode, r2) = match split_comma_exec(&r1) {
        Some(x) => x,
        None => {
            return None;
        },
    };
    let (color, user) = match split_comma_exec(&r2) {
        Some(x) => x,
        None => {
            return None;
        },
    };
    let ms = match parse_time_ms(&time) {
        Some(ms) => ms,
        None => {
            return None;
        },
    };
    let col = match parse_decimal(&color) {
        Some(c) => c,
        None => {
            return None;
        },
    };
    if col > 0xFFFFFF {
        return None;
    }
    Some(
        Position {
            time_ms: ms,
            r: (col / 65536) as u8,
            g: ((col % 65536) / 256) as u8,
            b: (col % 256) as u8,
            source: classify_chars(&user),
        },
    )
}

/// The message with each line feed written as the two characters `\N`.
pub open spec fn escape(s: Seq<char>) -> Seq<char>
    decreases s.len(),
{
    if s.len() == 0 {
        Seq::empty()
    } else {
        escape(s.drop_last()) + if s.last() == '\n' {
            seq!['\\', 'N']
        } else {
            seq![s.last()]
        }
    }
}

/// Writes each line feed of a message as `\N`.
pub fn escape_newlines(m: &str) -> (r: String)
    ensures
        r@ == escape(m@),
{
    let v = chars_of(m);
    let mut out: Vec<char> = Vec::new();
    let mut i: usize = 0;
    while i < v.len()
        invariant
            v@ == m@,
            i <= v@.len(),
            out@ == escape(v@.take(i as int)),
        decreases v@.len() - i,
    {
        assert(v@.take(i + 1).drop_last() =~= v@.take(i as int));
        if v[i] == '\n' {
            out.push('\\');
            out.push('N');
        } else {
            out.push(v[i]);
        }
        i = i + 1;
        assert(out@ =~= escape(v@.take(i as int)));
    }
    assert(v@.take(v@.len() as int) =~= v@);
    string_of(&out)
}

/// `k` occurs in `m` as a contiguous run.
pub open spec fn contains_sub(m: Seq<char>, k: Seq<char>) -> bool {
    exists|i: int| 0 <= i <= m.len() - k.len() && #[trigger] m.subrange(i, i + k.len()) == k
}

fn occurs_at(m: &Vec<char>, k: &Vec<char>, i: usize) -> (r: bool)
    requires
        i + k@.len() <= m@.len(),
    ensures
        r == (m@.subrange(i as int, i + k@.len()) == k@),
{
    let n = m.len();
    let mut j: usize = 0;
    while j < k.len()
        invariant
            n == m@.len(),
            i + k@.len() <= m@.len(),
            j <= k@.len(),
            forall|t: int| 0 <= t < j ==> m@[i + t] == #[trigger] k@[t],
        decreases k@.len() - j,
    {
        if m[i + j] != k[j] {
            assert(m@.subrange(i as int, i + k@.len())[j as int] != k@[j as int]);
            return false;
        }
        j = j + 1;
    }
    assert(m@.subrange(i as int, i + k@.len()) =~= k@);
    true
}

fn contains_chars(m: &Vec<char>, k: &Vec<char>) -> (r: bool)
    ensures
        r == contains_sub(m@, k@),
{
    if k.len() > m.len() {
        return false;
    }
    let last: usize = m.len() - k.len();
    let mut i: usize = 0;
    loop
        invariant
            last == m@.len() - k@.len(),
            i <= last,
            forall|t: int| 0 <= t < i ==> #[trigger] m@.subrange(t, t + k@.len()) != k@,
        decreases last - i,
    {
        if occurs_at(m, k, i) {
            return true;
        }
        if i == last {
            return false;
        }
        i = i + 1;
    }
}

/// What the comment filter is configured with.
pub struct Filter {
    /// A message containing any of these is dropped.
    pub keywords: Vec<String>,
    /// Sources blocked by configuration.
    pub sources: Vec<Source>,
    /// Sources blocked at run time; when set, it replaces `sources`.
    pub sources_rt: Option<Vec<Source>>,
}

/// A message survives when it contains none of the keywords.
pub open spec fn keeps_spec(keywords: Seq<String>, m: Seq<char>) -> bool {
    forall|j: int| 0 <= j < keywords.len() ==> !contains_sub(m, #[trigger] keywords[j]@)
}

/// Whether entries of `src` are blocked: by the run-time set when it is
/// present, else by the configured set.
pub open spec fn blocked_spec(f: Filter, src: Source) -> bool {
    match f.sources_rt {
        Some(rt) => rt@.contains(src),
        None => f.sources@.contains(src),
    }
}

fn has_source(v: &Vec<Source>, src: Source) -> (r: bool)
    ensures
        r == v@.contains(src),
{
    let mut i: usize = 0;
    while i < v.len()
        invariant
            i <= v@.len(),
            forall|t: int| 0 <= t < i ==> v@[t] != src,
        decreases v@.len() - i,
    {
        if v[i] == src {
            return true;
        }
        i = i + 1;
    }
    false
}

impl Filter {
    /// Whether a message passes the keyword block-list.
    pub fn keeps(&self, message: &str) -> (r: bool)
        ensures
            r == keeps_spec(self.keywords@, message@),
    {
        let m = chars_of(message);
        let mut j: usize = 0;
        while j < self.keywords.len()
            invariant
                m@ == message@,
                j <= self.keywords@.len(),
                forall|t: int|
                    0 <= t < j ==> !contains_sub(message@, #[trigger] self.keywords@[t]@),
            decreases self.keywords@.len() - j,
        {
            let k = chars_of(self.keywords[j].as_str());
            if contains_chars(&m, &k) {
                return false;
            }
            j = j + 1;
        }
        true
    }

    /// Whether entries of a source are blocked.
    pub fn is_blocked(&self, src: Source) -> (r: bool)
        ensures
            r == blocked_spec(*self, src),
    {
        match &self.sources_rt {
            Some(rt) => has_source(rt, src),
            None => has_source(&self.sources, src),
        }
    }
}

/// A raw comment: its position string and its message.
pub struct CommentRecord {
    pub p: String,
    pub m: String,
}

/// A comment ready for placement on screen.
pub struct DanmakuEntry {
    pub message: String,
    /// User-perceived characters of the message.
    pub count: usize,
    pub time_ms: u64,
    pub r: u8,
    pub g: u8,
    pub b: u8,
    pub source: Source,
    pub blocked: bool,
}

/// `e` is the entry that record `rec` gives under filter `f`.
pub open spec fn entry_of(e: DanmakuEntry, rec: CommentRecord, f: Filter) -> bool {
    match position_spec(rec.p@) {
        Some(pos) => {
            &&& e.message@ == escape(rec.m@)
            &&& e.count == grapheme_count(rec.m@)
            &&& e.time_ms == pos.time_ms
            &&& e.r == pos.r
            &&& e.g == pos.g
            &&& e.b == pos.b
            &&& e.source == pos.source
            &&& e.blocked == blocked_spec(f, pos.source)
        },
        None => false,
    }
}

/// Turns a record into an entry; a malformed position string is an error.
pub fn parse_entry(rec: &CommentRecord, filter: &Filter) -> (r: Result<DanmakuEntry, ResolveError>)
    ensures
        position_spec(rec.p@) is None ==> r == Err::<DanmakuEntry, ResolveError>(
            ResolveError::ParseError,
        ),
        position_spec(rec.p@) is Some ==> (r matches Ok(e) && entry_of(e, *rec, *filter)),
{
    let pos = match parse_position(rec.p.as_str()) {
        Some(pos) => pos,
        None => {
            return Err(ResolveError::ParseError);
        },
    };
    Ok(
        DanmakuEntry {
            message: escape_newlines(rec.m.as_str()),
            count: count_graphemes(rec.m.as_str()),
            time_ms: pos.time_ms,
            r: pos.r,
            g: pos.g,
            b: pos.b,
            source: pos.source,
            blocked: filter.is_blocked(pos.source),
        },
    )
}

/// `x` placed after every entry of the sorted `r` whose time is not later.
pub open spec fn insert_sorted(r: Seq<DanmakuEntry>, x: DanmakuEntry) -> Seq<DanmakuEntry>
    decreases r.len(),
{
    if r.len() == 0 {
        seq![x]
    } else if r.last().time_ms > x.time_ms {
        insert_sorted(r.drop_last(), x).push(r.last())
    } else {
        r.push(x)
    }
}

/// The entries ordered by time; entries with equal times keep their order.
pub open spec fn sort_by_time(s: Seq<DanmakuEntry>) -> Seq<DanmakuEntry>
    decreases s.len(),
{
    if s.len() == 0 {
        Seq::empty()
    } else {
        insert_sorted(sort_by_time(s.drop_last()), s.last())
    }
}

/// Times never decrease along `s`.
pub open spec fn time_sorted(s: Seq<DanmakuEntry>) -> bool {
    forall|i: int, j: int| 0 <= i < j < s.len() ==> s[i].time_ms <= s[j].time_ms
}

proof fn lemma_insert_at(r: Seq<DanmakuEntry>, x: DanmakuEntry, j: int)
    requires
        0 <= j <= r.len(),
        forall|k: int| j <= k < r.len() ==> (#[trigger] r[k]).time_ms > x.time_ms,
        j > 0 ==> r[j - 1].time_ms <= x.time_ms,
    ensures
        insert_sorted(r, x) == r.insert(j, x),
    decreases r.len(),
{
    if r.len() == 0 {
        assert(r.insert(j, x) =~= seq![x]);
    } else if r.last().time_ms > x.time_ms {
        let t = r.drop_last();
        assert forall|k: int| j <= k < t.len() implies (#[trigger] t[k]).time_ms > x.time_ms by {
            assert(t[k] == r[k]);
        }
        lemma_insert_at(t, x, j);
        assert(t.insert(j, x).push(r.last()) =~= r.insert(j, x));
    } else {
        assert(r.push(x) =~= r.insert(j, x));
    }
}

proof fn lemma_insert_sorted_keeps_order(r: Seq<DanmakuEntry>, x: DanmakuEntry)
    requires
        time_sorted(r),
    ensures
        time_sorted(insert_sorted(r, x)),
        insert_sorted(r, x).to_multiset() == r.to_multiset().insert(x),
    decreases r.len(),
{
    if r.len() == 0 {
        assert(seq![x] =~= r.push(x));
        r.to_multiset_ensures();
    } else if r.last().time_ms > x.time_ms {
        let t = r.drop_last();
        assert(time_sorted(t));
        lemma_insert_sorted_keeps_order(t, x);
        let u = insert_sorted(t, x);
        u.to_multiset_ensures();
        assert(r =~= t.push(r.last()));
        t.to_multiset_ensures();
        r.to_multiset_ensures();
        assert(u.push(r.last()).to_multiset() =~= r.to_multiset().insert(x)) by {
            u.push(r.last()).to_multiset_ensures();
        }
        assert forall|k: int| 0 <= k < u.len() implies (#[trigger] u[k]).time_ms <= r.last().time_ms by {
            assert(u.to_multiset().count(u[k]) > 0);
            assert(t.to_multiset().insert(x).count(u[k]) > 0);
            if u[k] != x {
                assert(t.to_multiset().count(u[k]) > 0);
                assert(t.contains(u[k]));
                let m = choose|m: int| 0 <= m < t.len() && t[m] == u[k];
                assert(r[m] == t[m]);
            }
        }
    } else {
        r.to_multiset_ensures();
    }
}

proof fn lemma_sort_by_time(s: Seq<DanmakuEntry>)
    ensures
        time_sorted(sort_by_time(s)),
        sort_by_time(s).to_multiset() == s.to_multiset(),
    decreases s.len(),
{
    if s.len() == 0 {
        assert(s =~= Seq::<DanmakuEntry>::empty());
    } else {
        lemma_sort_by_time(s.drop_last());
        lemma_insert_sorted_keeps_order(sort_by_time(s.drop_last()), s.last());
        assert(s =~= s.drop_last().push(s.last()));
        s.drop_last().to_multiset_ensures();
    }
}

/// Sorting by time yields entries in time order, and the same entries.
pub proof fn lemma_sort_orders_and_keeps(s: Seq<DanmakuEntry>)
    ensures
        time_sorted(sort_by_time(s)),
        sort_by_time(s).to_multiset() == s.to_multiset(),
{
    lemma_sort_by_time(s);
}

fn insert_by_time(out: &mut Vec<DanmakuEntry>, x: DanmakuEntry)
    requires
        time_sorted(old(out)@),
    ensures
        final(out)@ == insert_sorted(old(out)@, x),
        time_sorted(final(out)@),
{
    proof {
        lemma_insert_sorted_keeps_order(out@, x);
    }
    let mut j: usize = out.len();
    while j > 0 && out[j - 1].time_ms > x.time_ms
        invariant
            j <= out@.len(),
            time_sorted(out@),
            forall|k: int| j <= k < out@.len() ==> (#[trigger] out@[k]).time_ms > x.time_ms,
        decreases j,
    {
        j = j - 1;
    }
    proof {
        lemma_insert_at(out@, x, j as int);
    }
    out.insert(j, x);
}

/// Orders entries by time, keeping the order of entries with equal times.
pub fn sort_entries(v: Vec<DanmakuEntry>) -> (r: Vec<DanmakuEntry>)
    ensures
        r@ == sort_by_time(v@),
{
    let ghost orig = v@;
    let total = v.len();
    let mut v = v;
    let mut rev: Vec<DanmakuEntry> = Vec::new();
    while v.len() > 0
        invariant
            v@ == orig.take(v@.len() as int),
            rev@.len() == orig.len() - v@.len(),
            forall|k: int| 0 <= k < rev@.len() ==> #[trigger] rev@[k] == orig[orig.len() - 1 - k],
        decreases v@.len(),
    {
        let x = v.pop().unwrap();
        rev.push(x);
        assert(v@ =~= orig.take(v@.len() as int));
    }
    let mut out: Vec<DanmakuEntry> = Vec::new();
    let mut i: usize = 0;
    while rev.len() > 0
        invariant
            total == orig.len(),
            rev@.len() + i == orig.len(),
            forall|k: int| 0 <= k < rev@.len() ==> #[trigger] rev@[k] == orig[orig.len() - 1 - k],
            out@ == sort_by_time(orig.take(i as int)),
            time_sorted(out@),
        decreases rev@.len(),
    {
        let x = rev.pop().unwrap();
        assert(x == orig[i as int]);
        assert(orig.take(i + 1).drop_last() =~= orig.take(i as int));
        insert_by_time(&mut out, x);
        i = i + 1;
    }
    assert(orig.take(orig.len() as int) =~= orig);
    out
}

/// The records whose messages pass the keyword block-list, in order.
pub open spec fn kept(records: Seq<CommentRecord>, keywords: Seq<String>) -> Seq<CommentRecord>
    decreases records.len(),
{
    if records.len() == 0 {
        Seq::empty()
    } else {
        kept(records.drop_last(), keywords) + if keeps_spec(keywords, records.last().m@) {
            seq![records.last()]
        } else {
            Seq::empty()
        }
    }
}

/// Filters, parses and orders raw comment records: the records whose
/// messages hold a blocked keyword are dropped, each other record becomes
/// its entry, and the entries come out sorted by time. A malformed
/// position string among the kept records fails the whole batch.
pub fn normalize(records: &Vec<CommentRecord>, filter: &Filter) -> (r: Result<
    Vec<DanmakuEntry>,
    ResolveError,
>)
    ensures
        r is Err <==> exists|j: int|
            0 <= j < kept(records@, filter.keywords@).len() && (#[trigger] position_spec(
                kept(records@, filter.keywords@)[j].p@,
            )) is None,
        r is Err ==> r == Err::<Vec<DanmakuEntry>, ResolveError>(ResolveError::ParseError),
        r matches Ok(v) ==> exists|parsed: Seq<DanmakuEntry>|
            {
                &&& parsed.len() == kept(records@, filter.keywords@).len()
                &&& forall|j: int|
                    0 <= j < parsed.len() ==> entry_of(
                        #[trigger] parsed[j],
                        kept(records@, filter.keywords@)[j],
                        *filter,
                    )
                &&& v@ == sort_by_time(parsed)
            },
{
    let ghost kws = filter.keywords@;
    let mut parsed: Vec<DanmakuEntry> = Vec::new();
    let n = records.len();
    let mut i: usize = 0;
    while i < records.len()
        invariant
            n == records@.len(),
            kws == filter.keywords@,
            i <= records@.len(),
            parsed@.len() == kept(records@.take(i as int), kws).len(),
            forall|j: int|
                0 <= j < parsed@.len() ==> entry_of(
                    #[trigger] parsed@[j],
                    kept(records@.take(i as int), kws)[j],
                    *filter,
                ),
            forall|j: int|
                0 <= j < kept(records@.take(i as int), kws).len() ==> (#[trigger] position_spec(
                    kept(records@.take(i as int), kws)[j].p@,
                )) is Some,
        decreases records@.len() - i,
    {
        let rec = &records[i];
        let ghost before = kept(records@.take(i as int), kws);
        assert(records@.take(i + 1).drop_last() =~= records@.take(i as int));
        assert(records@.take(i + 1).last() == records@[i as int]);
        if filter.keeps(rec.m.as_str()) {
            let ghost after = kept(records@.take(i + 1), kws);
            assert(after == before + seq![*rec]);
            match parse_entry(rec, filter) {
                Ok(e) => {
                    parsed.push(e);
                    assert forall|j: int| 0 <= j < after.len() implies (#[trigger] position_spec(
                        after[j].p@,
                    )) is Some by {
                        if j < before.len() {
                            assert(after[j] == before[j]);
                        }
                    }
                    assert forall|j: int| 0 <= j < parsed@.len() implies entry_of(
                        #[trigger] parsed@[j],
                        after[j],
                        *filter,
                    ) by {
                        if j < before.len() {
                            assert(after[j] == before[j]);
                        }
                    }
                },
                Err(e) => {
                    proof {
                        let k = kept(records@, kws);
                        lemma_kept_prefix(records@, kws, i + 1);
                        assert(after[before.len() as int] == *rec);
                        assert(k[before.len() as int] == after[before.len() as int]);
                        assert(position_spec(k[before.len() as int].p@) is None);
                    }
                    return Err(e);
                },
            }
        } else {
            assert(kept(records@.take(i + 1), kws) =~= before);
        }
        i = i + 1;
    }
    assert(records@.take(records@.len() as int) =~= records@);
    let out = sort_entries(parsed);
    assert(!exists|j: int|
        0 <= j < kept(records@, filter.keywords@).len() && (#[trigger] position_spec(
            kept(records@, filter.keywords@)[j].p@,
        )) is None);
    Ok(out)
}

proof fn lemma_kept_prefix(records: Seq<CommentRecord>, keywords: Seq<String>, i: int)
    requires
        0 <= i <= records.len(),
    ensures
        kept(records.take(i), keywords).len() <= kept(records, keywords).len(),
        forall|j: int|
            0 <= j < kept(records.take(i), keywords).len() ==> #[trigger] kept(
                records.take(i),
                keywords,
            )[j] == kept(records, keywords)[j],
    decreases records.len() - i,
{
    if i < records.len() {
        lemma_kept_prefix(records, keywords, i + 1);
        assert(records.take(i + 1).drop_last() =~= records.take(i));
        let a = kept(records.take(i), keywords);
        let b = kept(records.take(i + 1), keywords);
        assert forall|j: int| 0 <= j < a.len() implies #[trigger] a[j] == b[j] by {}
    } else {
        assert(records.take(i) =~= records);
    }
}

} // verus!
