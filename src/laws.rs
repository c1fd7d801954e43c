//! Laws of the parser, stated over buffers built from lines.

use vstd::prelude::*;
use crate::mem_info::{key_bytes, Field, MemInfo};
use crate::parse::{
    apply_line, is_newline, line_key, line_len, parse_from, spec_parse, value_of, ParseError,
};

verus! {

/// The text made of `ls`, each line followed by a newline.
pub open spec fn join_lines(ls: Seq<Seq<u8>>) -> Seq<u8>
    decreases ls.len(),
{
    if ls.len() == 0 {
        Seq::empty()
    } else {
        ls[0] + seq![10u8] + join_lines(ls.drop_first())
    }
}

/// Whether `l` holds no newline, so that it is one line of a text.
pub open spec fn is_single_line(l: Seq<u8>) -> bool {
    forall|k: int| 0 <= k < l.len() ==> !is_newline(#[trigger] l[k])
}

/// Whether every element of `ls` is a single line.
pub open spec fn all_single_lines(ls: Seq<Seq<u8>>) -> bool {
    forall|i: int| 0 <= i < ls.len() ==> is_single_line(#[trigger] ls[i])
}

/// Whether `l` is a well-formed line that gives the value `v` to the field `f`.
pub open spec fn line_reads(l: Seq<u8>, f: Field, v: usize) -> bool {
    &&& is_single_line(l)
    &&& line_key(l) == Some(f)
    &&& value_of(l.skip(key_bytes(f).len() as int)) == Some(v)
}

/// Whether the lines `ls` read, one by one, as the fields `fs` with the values `vs`.
pub open spec fn lines_read(ls: Seq<Seq<u8>>, fs: Seq<Field>, vs: Seq<usize>) -> bool {
    &&& ls.len() == fs.len()
    &&& ls.len() == vs.len()
    &&& forall|i: int| 0 <= i < ls.len() ==> line_reads(#[trigger] ls[i], fs[i], vs[i])
}

/// Whether no field occurs twice in `fs`.
pub open spec fn fields_distinct(fs: Seq<Field>) -> bool {
    forall|i: int, j: int| 0 <= i < j < fs.len() ==> fs[i] != fs[j]
}

/// Applies the lines `ls` in turn to the record `acc`.
pub open spec fn apply_lines(acc: MemInfo, ls: Seq<Seq<u8>>) -> Result<MemInfo, ParseError>
    decreases ls.len(),
{
    if ls.len() == 0 {
        Ok(acc)
    } else {
        match apply_line(acc, ls[0]) {
            Err(e) => Err(e),
            Ok(next) => apply_lines(next, ls.drop_first()),
        }
    }
}

/// A line followed by a newline is the first line of the text.
proof fn lemma_first_line(l: Seq<u8>, rest: Seq<u8>)
    requires
        is_single_line(l),
    ensures
        line_len(l + seq![10u8] + rest) == l.len(),
    decreases l.len(),
{
    let s = l + seq![10u8] + rest;
    if l.len() > 0 {
        assert(!is_newline(l[0]));
        assert(s.drop_first() =~= l.drop_first() + seq![10u8] + rest);
        lemma_first_line(l.drop_first(), rest);
    } else {
        assert(s[0] == 10u8);
    }
}

/// Parsing a text made of lines applies its lines in turn.
proof fn lemma_parse_join(ls: Seq<Seq<u8>>, acc: MemInfo)
    requires
        all_single_lines(ls),
    ensures
        parse_from(join_lines(ls), acc) == apply_lines(acc, ls),
    decreases ls.len(),
{
    if ls.len() > 0 {
        let rest = ls.drop_first();
        let s = join_lines(ls);
        assert(is_single_line(ls[0]));
        lemma_first_line(ls[0], join_lines(rest));
        assert(s.take(ls[0].len() as int) =~= ls[0]);
        assert(s.skip(ls[0].len() + 1 as int) =~= join_lines(rest));
        assert(all_single_lines(rest)) by {
            assert forall|i: int| 0 <= i < rest.len() implies is_single_line(#[trigger] rest[i]) by {
                assert(rest[i] == ls[i + 1]);
            }
        }
        match apply_line(acc, ls[0]) {
            Err(e) => {},
            Ok(next) => {
                lemma_parse_join(rest, next);
            },
        }
    }
}

/// Storing into one field leaves the others as they were.
proof fn lemma_with_get(r: MemInfo, f: Field, v: usize, g: Field)
    ensures
        r.with(f, v).get(g) == (if f == g {
            v
        } else {
            r.get(g)
        }),
{
}

/// Applying recognized lines succeeds, gives each field that no line names the
/// value it had, and, when no field is named twice, gives each named field its
/// line's value.
proof fn lemma_apply_read_lines(acc: MemInfo, ls: Seq<Seq<u8>>, fs: Seq<Field>, vs: Seq<usize>)
    requires
        lines_read(ls, fs, vs),
    ensures
        apply_lines(acc, ls) is Ok,
        forall|f: Field| !fs.contains(f) ==> (#[trigger] apply_lines(acc, ls)->Ok_0.get(f))
            == acc.get(f),
        fields_distinct(fs) ==> forall|i: int|
            0 <= i < fs.len() ==> (#[trigger] apply_lines(acc, ls)->Ok_0.get(fs[i])) == vs[i],
    decreases ls.len(),
{
    if ls.len() > 0 {
        assert(line_reads(ls[0], fs[0], vs[0]));
        let next = acc.with(fs[0], vs[0]);
        assert(apply_line(acc, ls[0]) == Ok::<MemInfo, ParseError>(next));
        let (rl, rf, rv) = (ls.drop_first(), fs.drop_first(), vs.drop_first());
        assert(lines_read(rl, rf, rv)) by {
            assert forall|i: int| 0 <= i < rl.len() implies line_reads(
                #[trigger] rl[i],
                rf[i],
                rv[i],
            ) by {
                assert(line_reads(ls[i + 1], fs[i + 1], vs[i + 1]));
            }
        }
        lemma_apply_read_lines(next, rl, rf, rv);
        let r = apply_lines(acc, ls)->Ok_0;
        assert(r == apply_lines(next, rl)->Ok_0);
        assert forall|f: Field| !fs.contains(f) implies #[trigger] r.get(f) == acc.get(f) by {
            if rf.contains(f) {
                let j = choose|j: int| 0 <= j < rf.len() && rf[j] == f;
                assert(fs[j + 1] == f);
            }
            assert(fs[0] != f);
            lemma_with_get(acc, fs[0], vs[0], f);
        }
        if fields_distinct(fs) {
            assert(fields_distinct(rf)) by {
                assert forall|i: int, j: int| 0 <= i < j < rf.len() implies rf[i] != rf[j] by {
                    assert(fs[i + 1] != fs[j + 1]);
                }
            }
            assert forall|i: int| 0 <= i < fs.len() implies #[trigger] r.get(fs[i]) == vs[i] by {
                if i > 0 {
                    assert(rf[i - 1] == fs[i]);
                } else {
                    assert(!rf.contains(fs[0])) by {
                        if rf.contains(fs[0]) {
                            let j = choose|j: int| 0 <= j < rf.len() && rf[j] == fs[0];
                            assert(fs[j + 1] == fs[0]);
                        }
                    }
                    lemma_with_get(acc, fs[0], vs[0], fs[0]);
                }
            }
        }
    }
}

/// Completeness: a text that gives every recognized field exactly once, in any
/// order, parses to the record that holds each field's given value.
pub proof fn lemma_complete(ls: Seq<Seq<u8>>, fs: Seq<Field>, vs: Seq<usize>)
    requires
        lines_read(ls, fs, vs),
        fields_distinct(fs),
        forall|f: Field| fs.contains(f),
    ensures
        spec_parse(join_lines(ls)) is Ok,
        forall|i: int|
            0 <= i < fs.len() ==> (#[trigger] spec_parse(join_lines(ls))->Ok_0.get(fs[i]))
                == vs[i],
{
    assert(all_single_lines(ls)) by {
        assert forall|i: int| 0 <= i < ls.len() implies is_single_line(#[trigger] ls[i]) by {
            assert(line_reads(ls[i], fs[i], vs[i]));
        }
    }
    lemma_parse_join(ls, MemInfo::spec_zero());
    lemma_apply_read_lines(MemInfo::spec_zero(), ls, fs, vs);
}

/// Defaulting: a text of recognized lines parses without error, and every
/// field that none of its lines names is zero.
pub proof fn lemma_absent_fields_zero(ls: Seq<Seq<u8>>, fs: Seq<Field>, vs: Seq<usize>)
    requires
        lines_read(ls, fs, vs),
    ensures
        spec_parse(join_lines(ls)) is Ok,
        forall|f: Field|
            !fs.contains(f) ==> (#[trigger] spec_parse(join_lines(ls))->Ok_0.get(f)) == 0,
{
    assert(all_single_lines(ls)) by {
        assert forall|i: int| 0 <= i < ls.len() implies is_single_line(#[trigger] ls[i]) by {
            assert(line_reads(ls[i], fs[i], vs[i]));
        }
    }
    lemma_parse_join(ls, MemInfo::spec_zero());
    lemma_apply_read_lines(MemInfo::spec_zero(), ls, fs, vs);
}

/// Whether `l` opens with a recognized key.
pub open spec fn is_recognized(l: Seq<u8>) -> bool {
    line_key(l) is Some
}

/// Unrecognized lines change nothing when the lines are applied.
proof fn lemma_apply_filter(acc: MemInfo, ls: Seq<Seq<u8>>)
    ensures
        apply_lines(acc, ls) == apply_lines(acc, ls.filter(|l: Seq<u8>| is_recognized(l))),
    decreases ls.len(),
{
    let p = |l: Seq<u8>| is_recognized(l);
    if ls.len() > 0 {
        let rest = ls.drop_first();
        assert(ls =~= seq![ls[0]] + rest);
        rest.lemma_filter_prepend(ls[0], p);
        let fl = ls.filter(p);
        match apply_line(acc, ls[0]) {
            Err(e) => {
                assert(fl[0] == ls[0]);
            },
            Ok(next) => {
                lemma_apply_filter(next, rest);
                if p(ls[0]) {
                    assert(fl[0] == ls[0]);
                    assert(fl.drop_first() =~= rest.filter(p));
                } else {
                    assert(next == acc);
                    assert(fl =~= rest.filter(p));
                }
            },
        }
    } else {
        assert(ls.filter(p) =~= ls) by {
            reveal(Seq::filter);
        }
    }
}

/// Robustness: lines that open with no recognized key, wherever they stand
/// among the others, have no effect on the result.
pub proof fn lemma_unknown_lines_ignored(ls: Seq<Seq<u8>>)
    requires
        all_single_lines(ls),
    ensures
        spec_parse(join_lines(ls)) == spec_parse(
            join_lines(ls.filter(|l: Seq<u8>| is_recognized(l))),
        ),
{
    let p = |l: Seq<u8>| is_recognized(l);
    let fl = ls.filter(p);
    assert(all_single_lines(fl)) by {
        assert forall|i: int| 0 <= i < fl.len() implies is_single_line(#[trigger] fl[i]) by {
            ls.lemma_filter_contains_rev(p, fl[i]);
            assert(fl.contains(fl[i]));
            let j = choose|j: int| 0 <= j < ls.len() && ls[j] == fl[i];
            assert(is_single_line(ls[j]));
        }
    }
    lemma_parse_join(ls, MemInfo::spec_zero());
    lemma_parse_join(fl, MemInfo::spec_zero());
    lemma_apply_filter(MemInfo::spec_zero(), ls);
}

/// Determinism: equal buffers parse to identical results.
pub proof fn lemma_deterministic(a: Seq<u8>, b: Seq<u8>)
    requires
        a == b,
    ensures
        spec_parse(a) == spec_parse(b),
{
}

} // verus!
