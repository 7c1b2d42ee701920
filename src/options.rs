//! Reading the plain-text option file: `key=value` lines and the
//! comma-separated lists some values hold.
use vstd::prelude::*;

use crate::comment::{source_named, Source};
use crate::text::{chars_of, find_char, find_char_in, slice_of, string_of};

verus! {

/// The key and value of an option line; comment lines (`#...`) and lines
/// without `=` hold none.
pub open spec fn option_line(line: Seq<char>) -> Option<(Seq<char>, Seq<char>)> {
    if line.len() > 0 && line[0] == '#' {
        None
    } else {
        match find_char(line, '=', 0) {
            Some(i) => Some((line.take(i), line.skip(i + 1))),
            None => None,
        }
    }
}

/// Splits an option line at its first `=`.
pub fn parse_option_line(line: &str) -> (r: Option<(String, String)>)
    ensures
        r is Some <==> option_line(line@) is Some,
        r matches Some((k, v)) ==> (k@, v@) == option_line(line@)->0,
{
    let v = chars_of(line);
    let n = v.len();
    if n > 0 && v[0] == '#' {
        return None;
    }
    match find_char_in(&v, '=', 0) {
        Some(i) => {
            let key = slice_of(&v, 0, i);
            let value = slice_of(&v, i + 1, n);
            assert(key@ =~= line@.take(i as int));
            assert(value@ =~= line@.skip(i + 1));
            Some((string_of(&key), string_of(&value)))
        },
        None => None,
    }
}

/// The pieces of `s` between commas, empty pieces included.
pub open spec fn pieces(s: Seq<char>) -> Seq<Seq<char>>
    decreases s.len(),
{
    match find_char(s, ',', 0) {
        Some(i) => if 0 <= i < s.len() {
            seq![s.take(i)] + pieces(s.skip(i + 1))
        } else {
            seq![s]
        },
        None => seq![s],
    }
}

/// The views of a list of strings.
pub open spec fn views(v: Seq<String>) -> Seq<Seq<char>> {
    v.map_values(|s: String| s@)
}

/// Splits a value at every comma.
pub fn split_commas(value: &str) -> (r: Vec<String>)
    ensures
        views(r@) == pieces(value@),
{
    let mut rest = chars_of(value);
    let mut out: Vec<String> = Vec::new();
    loop
        invariant
            views(out@) + pieces(rest@) == pieces(value@),
        decreases rest@.len(),
    {
        let n = rest.len();
        match find_char_in(&rest, ',', 0) {
            None => {
                let ghost before = out@;
                out.push(string_of(&rest));
                assert(views(out@) =~= views(before) + seq![rest@]);
                return out;
            },
            Some(i) => {
                let ghost before = out@;
                let ghost old_rest = rest@;
                let head = slice_of(&rest, 0, i);
                out.push(string_of(&head));
                rest = slice_of(&rest, i + 1, n);
                assert(head@ =~= old_rest.take(i as int));
                assert(rest@ =~= old_rest.skip(i + 1));
                assert(views(out@) =~= views(before) + seq![head@]);
                assert(pieces(old_rest) == seq![head@] + pieces(rest@));
                assert(views(out@) + pieces(rest@) =~= views(before) + pieces(old_rest));
            },
        }
    }
}

/// The sources that a list of names names, unknown names left out.
pub open spec fn known_sources(names: Seq<Seq<char>>) -> Seq<Source>
    decreases names.len(),
{
    if names.len() == 0 {
        Seq::empty()
    } else {
        known_sources(names.drop_last()) + if source_named(names.last()) == Source::Unknown {
            Seq::<Source>::empty()
        } else {
            seq![source_named(names.last())]
        }
    }
}

/// Reads a comma-separated list of source names.
pub fn parse_sources(value: &str) -> (r: Vec<Source>)
    ensures
        r@ == known_sources(pieces(value@)),
{
    let names = split_commas(value);
    let ghost ns = views(names@);
    let mut out: Vec<Source> = Vec::new();
    let mut i: usize = 0;
    while i < names.len()
        invariant
            ns == views(names@),
            ns == pieces(value@),
            i <= names@.len(),
            out@ == known_sources(ns.take(i as int)),
        decreases names@.len() - i,
    {
        let s = Source::from_name(names[i].as_str());
        assert(ns.take(i + 1).drop_last() =~= ns.take(i as int));
        assert(ns[i as int] == names@[i as int]@);
        if s != Source::Unknown {
            out.push(s);
        }
        i = i + 1;
        assert(out@ =~= known_sources(ns.take(i as int)));
    }
    assert(ns.take(names@.len() as int) =~= ns);
    out
}

/// A rule of an external keyword-rule file is taken when it is a plain
/// keyword rule (type 0) and switched on.
pub fn rule_accepted(kind: usize, opened: bool) -> (r: bool)
    ensures
        r == (kind == 0 && opened),
{
    kind == 0 && opened
}

} // verus!
