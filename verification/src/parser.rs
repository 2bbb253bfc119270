//! Recursive-descent parser for the query and mutation language.
//!
//! The grammar is defined once, as spec functions over byte sequences
//! (`spec_parse_*`); each takes the remaining input and yields the parsed
//! value together with the unconsumed suffix, or `None` on a malformed
//! input.  The executable parsers return exactly what the spec grammar
//! says, position-indexed into the input buffer.

use vstd::prelude::*;

use crate::ast::MTree;
use crate::ast::MutationObject;
use crate::ast::QTree;
use crate::ast::QueryObject;
use crate::ast::is_alnum;
use crate::ast::is_ms;
use crate::ast::is_sp;
use crate::ast::params_view;

verus! {

/// One `(key, value)` parameter pair.
pub type ParamPair = (Vec<u8>, Vec<u8>);

/// An ordered parameter list.
pub type ParamList = Vec<ParamPair>;

/// One schema field declaration: name, type text, required marker.
pub type FieldDef = (Vec<u8>, Vec<u8>, bool);

/// One schema type declaration: name and its ordered fields.
pub type ObjectDef = (Vec<u8>, Vec<FieldDef>);

/// Result of an optional parameter-list parse.
pub type ParamsOut = Option<(ParamList, usize)>;


// ---------------------------------------------------------------------
// Token-level spec functions
// ---------------------------------------------------------------------
/// Drop leading whitespace (space, tab, newline, carriage return).
pub open spec fn skip_ms(s: Seq<u8>) -> Seq<u8>
    decreases s.len(),
{
    if s.len() > 0 && is_ms(s[0]) {
        skip_ms(s.drop_first())
    } else {
        s
    }
}

/// Drop leading spaces and tabs only.
pub open spec fn skip_sp(s: Seq<u8>) -> Seq<u8>
    decreases s.len(),
{
    if s.len() > 0 && is_sp(s[0]) {
        skip_sp(s.drop_first())
    } else {
        s
    }
}

/// Length of the longest alphanumeric prefix.
pub open spec fn alnum_len(s: Seq<u8>) -> nat
    decreases s.len(),
{
    if s.len() > 0 && is_alnum(s[0]) {
        1 + alnum_len(s.drop_first())
    } else {
        0
    }
}

/// Length of the longest prefix free of double quotes.
pub open spec fn until_quote_len(s: Seq<u8>) -> nat
    decreases s.len(),
{
    if s.len() > 0 && s[0] != 34 {
        1 + until_quote_len(s.drop_first())
    } else {
        0
    }
}

/// A byte that ends the value of a schema field declaration.
pub open spec fn is_field_stop(b: u8) -> bool {
    b == 32 || b == 33 || b == 10 || b == 125
}

/// Length of the longest prefix free of field-value stop bytes.
pub open spec fn until_stop_len(s: Seq<u8>) -> nat
    decreases s.len(),
{
    if s.len() > 0 && !is_field_stop(s[0]) {
        1 + until_stop_len(s.drop_first())
    } else {
        0
    }
}

/// A bare token: one or more alphanumeric bytes.
pub open spec fn spec_parse_alnum(s: Seq<u8>) -> Option<(Seq<u8>, Seq<u8>)> {
    let n = alnum_len(s);
    if n > 0 {
        Option::Some((s.take(n as int), s.skip(n as int)))
    } else {
        Option::None
    }
}

/// A quoted token whose interior is any run of bytes up to the closing
/// double quote.
pub open spec fn spec_parse_quoted_any(s: Seq<u8>) -> Option<(Seq<u8>, Seq<u8>)> {
    if s.len() >= 2 && s[0] == 34 {
        let n = until_quote_len(s.skip(1));
        if n < s.len() - 1 {
            Option::Some((s.subrange(1, 1 + n as int), s.skip(2 + n as int)))
        } else {
            Option::None
        }
    } else {
        Option::None
    }
}

/// A quoted token whose interior must itself be a bare token.
pub open spec fn spec_parse_quoted_alnum(s: Seq<u8>) -> Option<(Seq<u8>, Seq<u8>)> {
    if s.len() >= 2 && s[0] == 34 {
        let n = alnum_len(s.skip(1));
        if n > 0 && 1 + n < s.len() && s[1 + n as int] == 34 {
            Option::Some((s.subrange(1, 1 + n as int), s.skip(2 + n as int)))
        } else {
            Option::None
        }
    } else {
        Option::None
    }
}

/// An object or field name: bare, or quoted with free interior.
pub open spec fn spec_parse_name(s: Seq<u8>) -> Option<(Seq<u8>, Seq<u8>)> {
    if spec_parse_alnum(s) is Some {
        spec_parse_alnum(s)
    } else {
        spec_parse_quoted_any(s)
    }
}

/// A parameter key or value: bare, or quoted with bare interior.
pub open spec fn spec_parse_word(s: Seq<u8>) -> Option<(Seq<u8>, Seq<u8>)> {
    if spec_parse_alnum(s) is Some {
        spec_parse_alnum(s)
    } else {
        spec_parse_quoted_alnum(s)
    }
}

// ---------------------------------------------------------------------
// Parameter lists
// ---------------------------------------------------------------------
/// One `key : value` pair, with its trailing whitespace.
pub open spec fn spec_parse_param(s: Seq<u8>) -> Option<((Seq<u8>, Seq<u8>), Seq<u8>)> {
    match spec_parse_word(s) {
        Option::None => Option::None,
        Option::Some((k, r1)) => {
            let r2 = skip_sp(r1);
            if r2.len() > 0 && r2[0] == 58 {
                let r3 = skip_sp(r2.skip(1));
                match spec_parse_word(r3) {
                    Option::None => Option::None,
                    Option::Some((v, r4)) => Option::Some(((k, v), skip_ms(r4))),
                }
            } else {
                Option::None
            }
        },
    }
}

/// Zero or more parameters; never fails, stops before the first byte
/// sequence that is not a parameter.
pub open spec fn spec_parse_params_list(s: Seq<u8>) -> (Seq<(Seq<u8>, Seq<u8>)>, Seq<u8>)
    decreases s.len(),
{
    let s1 = skip_ms(s);
    if s1.len() <= s.len() {
        match spec_parse_param(s1) {
            Option::None => (Seq::empty(), s),
            Option::Some((p, r)) => {
                if r.len() < s.len() {
                    let (l, r2) = spec_parse_params_list(r);
                    (seq![p] + l, r2)
                } else {
                    (seq![p], r)
                }
            },
        }
    } else {
        (Seq::empty(), s)
    }
}

/// A parenthesised parameter list.
pub open spec fn spec_parse_params(s: Seq<u8>) -> Option<(Seq<(Seq<u8>, Seq<u8>)>, Seq<u8>)> {
    if s.len() > 0 && s[0] == 40 {
        let (l, r) = spec_parse_params_list(s.skip(1));
        if r.len() > 0 && r[0] == 41 {
            Option::Some((l, r.skip(1)))
        } else {
            Option::None
        }
    } else {
        Option::None
    }
}

// ---------------------------------------------------------------------
// Query objects
// ---------------------------------------------------------------------
/// One query object: name, optional parameter list, optional braced list
/// of child query objects, whitespace-insensitive.
pub open spec fn spec_parse_qobj(s: Seq<u8>) -> Option<(QTree, Seq<u8>)>
    decreases s.len(), 0nat,
{
    let s1 = skip_ms(s);
    if s1.len() <= s.len() {
        match spec_parse_name(s1) {
            Option::None => Option::None,
            Option::Some((name, s2)) => {
                let s3 = skip_sp(s2);
                let pr = spec_parse_params(s3);
                let params: Option<Seq<(Seq<u8>, Seq<u8>)>> = match pr {
                    Option::None => Option::None,
                    Option::Some((l, _r)) => Option::Some(l),
                };
                let s4 = match pr {
                    Option::None => s3,
                    Option::Some((_l, r)) => r,
                };
                let s5 = skip_sp(s4);
                if s5.len() > 0 && s5[0] == 123 {
                    if s5.len() <= s.len() {
                        let (ats, r) = spec_parse_qobj_list(s5.skip(1));
                        if r.len() > 0 && r[0] == 125 {
                            Option::Some(
                                (
                                    QTree { name, params, attrs: Option::Some(ats) },
                                    skip_ms(r.skip(1)),
                                ),
                            )
                        } else {
                            Option::None
                        }
                    } else {
                        Option::None
                    }
                } else {
                    Option::Some((QTree { name, params, attrs: Option::None }, skip_ms(s5)))
                }
            },
        }
    } else {
        Option::None
    }
}

/// Zero or more query objects; never fails.
pub open spec fn spec_parse_qobj_list(s: Seq<u8>) -> (Seq<QTree>, Seq<u8>)
    decreases s.len(), 1nat,
{
    match spec_parse_qobj(s) {
        Option::None => (Seq::empty(), s),
        Option::Some((t, r)) => {
            if r.len() < s.len() {
                let (l, r2) = spec_parse_qobj_list(r);
                (seq![t] + l, r2)
            } else {
                (seq![t], r)
            }
        },
    }
}

/// A complete read query: one braced query object consuming the whole
/// input.
pub open spec fn spec_parse_query(s: Seq<u8>) -> Option<QTree> {
    let s1 = skip_ms(s);
    if s1.len() > 0 && s1[0] == 123 {
        match spec_parse_qobj(s1.skip(1)) {
            Option::None => Option::None,
            Option::Some((t, r)) => {
                if r.len() > 0 && r[0] == 125 && skip_ms(r.skip(1)).len() == 0 {
                    Option::Some(t)
                } else {
                    Option::None
                }
            },
        }
    } else {
        Option::None
    }
}

// ---------------------------------------------------------------------
// Mutation objects
// ---------------------------------------------------------------------
/// The optional `: value` part of a mutation object.
pub open spec fn spec_parse_mval(s: Seq<u8>) -> Option<(Seq<u8>, Seq<u8>)> {
    if s.len() > 0 && s[0] == 58 {
        spec_parse_name(skip_sp(s.skip(1)))
    } else {
        Option::None
    }
}

/// One mutation object: name, optional scalar value, optional parameter
/// list, optional braced child list.
pub open spec fn spec_parse_mobj(s: Seq<u8>) -> Option<(MTree, Seq<u8>)>
    decreases s.len(), 0nat,
{
    let s1 = skip_ms(s);
    if s1.len() <= s.len() {
        match spec_parse_name(s1) {
            Option::None => Option::None,
            Option::Some((name, s2)) => {
                let s3 = skip_sp(s2);
                let vr = spec_parse_mval(s3);
                let value: Option<Seq<u8>> = match vr {
                    Option::None => Option::None,
                    Option::Some((v, _r)) => Option::Some(v),
                };
                let s4 = match vr {
                    Option::None => s3,
                    Option::Some((_v, r)) => r,
                };
                let pr = spec_parse_params(s4);
                let params: Option<Seq<(Seq<u8>, Seq<u8>)>> = match pr {
                    Option::None => Option::None,
                    Option::Some((l, _r)) => Option::Some(l),
                };
                let s5 = match pr {
                    Option::None => s4,
                    Option::Some((_l, r)) => r,
                };
                let s6 = skip_sp(s5);
                if s6.len() > 0 && s6[0] == 123 {
                    if s6.len() <= s.len() {
                        let (ats, r) = spec_parse_mobj_list(s6.skip(1));
                        if r.len() > 0 && r[0] == 125 {
                            Option::Some(
                                (
                                    MTree { name, value, params, attrs: Option::Some(ats) },
                                    skip_ms(r.skip(1)),
                                ),
                            )
                        } else {
                            Option::None
                        }
                    } else {
                        Option::None
                    }
                } else {
                    Option::Some(
                        (MTree { name, value, params, attrs: Option::None }, skip_ms(s6)),
                    )
                }
            },
        }
    } else {
        Option::None
    }
}

/// Zero or more mutation objects; never fails.
pub open spec fn spec_parse_mobj_list(s: Seq<u8>) -> (Seq<MTree>, Seq<u8>)
    decreases s.len(), 1nat,
{
    match spec_parse_mobj(s) {
        Option::None => (Seq::empty(), s),
        Option::Some((t, r)) => {
            if r.len() < s.len() {
                let (l, r2) = spec_parse_mobj_list(r);
                (seq![t] + l, r2)
            } else {
                (seq![t], r)
            }
        },
    }
}

/// A complete mutation: one braced mutation object consuming the whole
/// input.
pub open spec fn spec_parse_mutation(s: Seq<u8>) -> Option<MTree> {
    let s1 = skip_ms(s);
    if s1.len() > 0 && s1[0] == 123 {
        match spec_parse_mobj(s1.skip(1)) {
            Option::None => Option::None,
            Option::Some((t, r)) => {
                if r.len() > 0 && r[0] == 125 && skip_ms(r.skip(1)).len() == 0 {
                    Option::Some(t)
                } else {
                    Option::None
                }
            },
        }
    } else {
        Option::None
    }
}

// ---------------------------------------------------------------------
// Schema declarations (`type Name { field: Type ... }`)
// ---------------------------------------------------------------------
/// One schema field: `name : value ['!']`.
pub open spec fn spec_parse_field(s: Seq<u8>) -> Option<((Seq<u8>, Seq<u8>, bool), Seq<u8>)> {
    match spec_parse_alnum(s) {
        Option::None => Option::None,
        Option::Some((k, r1)) => {
            let r2 = skip_sp(r1);
            if r2.len() > 0 && r2[0] == 58 {
                let r3 = skip_sp(r2.skip(1));
                let n = until_stop_len(r3);
                if n < r3.len() {
                    let v = r3.take(n as int);
                    let r4 = skip_sp(r3.skip(n as int));
                    if r4.len() > 0 && r4[0] == 33 {
                        Option::Some(((k, v, true), skip_ms(r4.skip(1))))
                    } else {
                        Option::Some(((k, v, false), skip_ms(r4)))
                    }
                } else {
                    Option::None
                }
            } else {
                Option::None
            }
        },
    }
}

/// Zero or more schema fields; never fails.
pub open spec fn spec_parse_fields_list(s: Seq<u8>) -> (Seq<(Seq<u8>, Seq<u8>, bool)>, Seq<u8>)
    decreases s.len(),
{
    let s1 = skip_ms(s);
    if s1.len() <= s.len() {
        match spec_parse_field(s1) {
            Option::None => (Seq::empty(), s),
            Option::Some((f, r)) => {
                if r.len() < s.len() {
                    let (l, r2) = spec_parse_fields_list(r);
                    (seq![f] + l, r2)
                } else {
                    (seq![f], r)
                }
            },
        }
    } else {
        (Seq::empty(), s)
    }
}

/// A braced list of schema fields.
pub open spec fn spec_parse_object_attrs(s: Seq<u8>) -> Option<
    (Seq<(Seq<u8>, Seq<u8>, bool)>, Seq<u8>),
> {
    if s.len() > 0 && s[0] == 123 {
        let (l, r) = spec_parse_fields_list(s.skip(1));
        if r.len() > 0 && r[0] == 125 {
            Option::Some((l, r.skip(1)))
        } else {
            Option::None
        }
    } else {
        Option::None
    }
}

/// One `type Name { ... }` declaration.
pub open spec fn spec_parse_object(s: Seq<u8>) -> Option<
    ((Seq<u8>, Seq<(Seq<u8>, Seq<u8>, bool)>), Seq<u8>),
> {
    if s.len() >= 5 && s[0] == 116 && s[1] == 121 && s[2] == 112 && s[3] == 101 && is_sp(s[4]) {
        let r1 = skip_sp(s.skip(4));
        match spec_parse_alnum(r1) {
            Option::None => Option::None,
            Option::Some((name, r2)) => {
                let r3 = skip_ms(r2);
                match spec_parse_object_attrs(r3) {
                    Option::None => Option::None,
                    Option::Some((fields, r4)) => Option::Some(((name, fields), r4)),
                }
            },
        }
    } else {
        Option::None
    }
}

/// Zero or more declarations; never fails.
pub open spec fn spec_parse_objects_list(s: Seq<u8>) -> (
    Seq<(Seq<u8>, Seq<(Seq<u8>, Seq<u8>, bool)>)>,
    Seq<u8>,
)
    decreases s.len(),
{
    let s1 = skip_ms(s);
    if s1.len() <= s.len() {
        match spec_parse_object(s1) {
            Option::None => (Seq::empty(), s),
            Option::Some((o, r)) => {
                let r2 = skip_ms(r);
                if r2.len() < s.len() {
                    let (l, r3) = spec_parse_objects_list(r2);
                    (seq![o] + l, r3)
                } else {
                    (seq![o], r2)
                }
            },
        }
    } else {
        (Seq::empty(), s)
    }
}

/// A whole schema description: declarations consuming the entire input.
pub open spec fn spec_parse_all_objects(s: Seq<u8>) -> Option<
    Seq<(Seq<u8>, Seq<(Seq<u8>, Seq<u8>, bool)>)>,
> {
    let (l, r) = spec_parse_objects_list(s);
    if r.len() == 0 {
        Option::Some(l)
    } else {
        Option::None
    }
}


proof fn lemma_tail_tail(s: Seq<u8>, a: int, b: int)
    requires
        0 <= a,
        0 <= b,
        a + b <= s.len(),
    ensures
        s.skip(a).skip(b) == s.skip(a + b),
{
    assert(s.skip(a).skip(b) =~= s.skip(a + b));
}

proof fn lemma_tail_take(s: Seq<u8>, a: int, n: int)
    requires
        0 <= a,
        0 <= n,
        a + n <= s.len(),
    ensures
        s.skip(a).take(n) == s.subrange(a, a + n),
{
    assert(s.skip(a).take(n) =~= s.subrange(a, a + n));
}

// ---------------------------------------------------------------------
// Executable byte classifiers
// ---------------------------------------------------------------------
fn is_ms_b(b: u8) -> (r: bool)
    ensures
        r == is_ms(b),
{
    b == 32 || b == 9 || b == 10 || b == 13
}

fn is_sp_b(b: u8) -> (r: bool)
    ensures
        r == is_sp(b),
{
    b == 32 || b == 9
}

fn is_alnum_b(b: u8) -> (r: bool)
    ensures
        r == is_alnum(b),
{
    (48 <= b && b <= 57) || (65 <= b && b <= 90) || (97 <= b && b <= 122)
}

fn is_field_stop_b(b: u8) -> (r: bool)
    ensures
        r == is_field_stop(b),
{
    b == 32 || b == 33 || b == 10 || b == 125
}

// ---------------------------------------------------------------------
// Executable scanners
// ---------------------------------------------------------------------
fn skip_ms_at(s: &Vec<u8>, pos: usize) -> (r: usize)
    requires
        pos <= s.len(),
    ensures
        pos <= r <= s.len(),
        skip_ms(s@.skip(pos as int)) == s@.skip(r as int),
{
    let mut i: usize = pos;
    while i < s.len() && is_ms_b(s[i])
        invariant
            pos <= i <= s.len(),
            skip_ms(s@.skip(pos as int)) == skip_ms(s@.skip(i as int)),
        decreases s.len() - i,
    {
        proof {
            assert(s@.skip(i as int)[0] == s@[i as int]);
            assert(s@.skip(i as int).drop_first() =~= s@.skip(i as int + 1));
        }
        i = i + 1;
    }
    proof {
        if i < s.len() {
            assert(s@.skip(i as int)[0] == s@[i as int]);
        }
        assert(skip_ms(s@.skip(i as int)) == s@.skip(i as int));
    }
    i
}

fn skip_sp_at(s: &Vec<u8>, pos: usize) -> (r: usize)
    requires
        pos <= s.len(),
    ensures
        pos <= r <= s.len(),
        skip_sp(s@.skip(pos as int)) == s@.skip(r as int),
{
    let mut i: usize = pos;
    while i < s.len() && is_sp_b(s[i])
        invariant
            pos <= i <= s.len(),
            skip_sp(s@.skip(pos as int)) == skip_sp(s@.skip(i as int)),
        decreases s.len() - i,
    {
        proof {
            assert(s@.skip(i as int)[0] == s@[i as int]);
            assert(s@.skip(i as int).drop_first() =~= s@.skip(i as int + 1));
        }
        i = i + 1;
    }
    proof {
        if i < s.len() {
            assert(s@.skip(i as int)[0] == s@[i as int]);
        }
        assert(skip_sp(s@.skip(i as int)) == s@.skip(i as int));
    }
    i
}

fn alnum_end(s: &Vec<u8>, pos: usize) -> (r: usize)
    requires
        pos <= s.len(),
    ensures
        pos <= r <= s.len(),
        alnum_len(s@.skip(pos as int)) == (r - pos) as nat,
{
    let mut i: usize = pos;
    while i < s.len() && is_alnum_b(s[i])
        invariant
            pos <= i <= s.len(),
            alnum_len(s@.skip(pos as int)) == (i - pos) + alnum_len(s@.skip(i as int)),
        decreases s.len() - i,
    {
        proof {
            assert(s@.skip(i as int)[0] == s@[i as int]);
            assert(s@.skip(i as int).drop_first() =~= s@.skip(i as int + 1));
        }
        i = i + 1;
    }
    proof {
        if i < s.len() {
            assert(s@.skip(i as int)[0] == s@[i as int]);
        }
        assert(alnum_len(s@.skip(i as int)) == 0);
    }
    i
}

fn until_quote_end(s: &Vec<u8>, pos: usize) -> (r: usize)
    requires
        pos <= s.len(),
    ensures
        pos <= r <= s.len(),
        until_quote_len(s@.skip(pos as int)) == (r - pos) as nat,
{
    let mut i: usize = pos;
    while i < s.len() && s[i] != 34
        invariant
            pos <= i <= s.len(),
            until_quote_len(s@.skip(pos as int)) == (i - pos) + until_quote_len(s@.skip(i as int)),
        decreases s.len() - i,
    {
        proof {
            assert(s@.skip(i as int)[0] == s@[i as int]);
            assert(s@.skip(i as int).drop_first() =~= s@.skip(i as int + 1));
        }
        i = i + 1;
    }
    proof {
        if i < s.len() {
            assert(s@.skip(i as int)[0] == s@[i as int]);
        }
        assert(until_quote_len(s@.skip(i as int)) == 0);
    }
    i
}

fn until_stop_end(s: &Vec<u8>, pos: usize) -> (r: usize)
    requires
        pos <= s.len(),
    ensures
        pos <= r <= s.len(),
        until_stop_len(s@.skip(pos as int)) == (r - pos) as nat,
{
    let mut i: usize = pos;
    while i < s.len() && !is_field_stop_b(s[i])
        invariant
            pos <= i <= s.len(),
            until_stop_len(s@.skip(pos as int)) == (i - pos) + until_stop_len(s@.skip(i as int)),
        decreases s.len() - i,
    {
        proof {
            assert(s@.skip(i as int)[0] == s@[i as int]);
            assert(s@.skip(i as int).drop_first() =~= s@.skip(i as int + 1));
        }
        i = i + 1;
    }
    proof {
        if i < s.len() {
            assert(s@.skip(i as int)[0] == s@[i as int]);
        }
        assert(until_stop_len(s@.skip(i as int)) == 0);
    }
    i
}

fn copy_range(s: &Vec<u8>, a: usize, b: usize) -> (r: Vec<u8>)
    requires
        a <= b,
        b <= s.len(),
    ensures
        r@ == s@.subrange(a as int, b as int),
{
    let mut out: Vec<u8> = Vec::new();
    let mut i: usize = a;
    while i < b
        invariant
            a <= i <= b,
            b <= s.len(),
            out@ == s@.subrange(a as int, i as int),
        decreases b - i,
    {
        out.push(s[i]);
        proof {
            assert(s@.subrange(a as int, i as int + 1) =~= s@.subrange(a as int, i as int)
                + seq![s@[i as int]]);
        }
        i = i + 1;
    }
    out
}


// ---------------------------------------------------------------------
// Executable token parsers
// ---------------------------------------------------------------------
fn p_alnum(s: &Vec<u8>, pos: usize) -> (r: Option<(Vec<u8>, usize)>)
    requires
        pos <= s.len(),
    ensures
        (match r {
            Option::Some(t) => pos < t.1 <= s.len() && spec_parse_alnum(s@.skip(pos as int))
                == Option::Some((t.0@, s@.skip(t.1 as int))),
            Option::None => spec_parse_alnum(s@.skip(pos as int)) is None,
        }),
{
    let e = alnum_end(s, pos);
    if e > pos {
        let tok = copy_range(s, pos, e);
        proof {
            lemma_tail_take(s@, pos as int, e - pos);
            lemma_tail_tail(s@, pos as int, e - pos);
        }
        Option::Some((tok, e))
    } else {
        Option::None
    }
}

fn p_quoted_any(s: &Vec<u8>, pos: usize) -> (r: Option<(Vec<u8>, usize)>)
    requires
        pos <= s.len(),
    ensures
        (match r {
            Option::Some(t) => pos < t.1 <= s.len() && spec_parse_quoted_any(s@.skip(pos as int))
                == Option::Some((t.0@, s@.skip(t.1 as int))),
            Option::None => spec_parse_quoted_any(s@.skip(pos as int)) is None,
        }),
{
    proof {
        if pos < s.len() {
            assert(s@.skip(pos as int)[0] == s@[pos as int]);
        }
    }
    if pos < s.len() && pos + 1 < s.len() && s[pos] == 34 {
        let e = until_quote_end(s, pos + 1);
        proof {
            lemma_tail_tail(s@, pos as int, 1);
        }
        if e < s.len() {
            let tok = copy_range(s, pos + 1, e);
            proof {
                let ghost sq = s@.skip(pos as int);
                let ghost n = (e - pos - 1) as int;
                assert(sq.subrange(1, 1 + n) =~= s@.subrange(pos + 1, e as int));
                lemma_tail_tail(s@, pos as int, 2 + n);
            }
            Option::Some((tok, e + 1))
        } else {
            Option::None
        }
    } else {
        Option::None
    }
}

fn p_quoted_alnum(s: &Vec<u8>, pos: usize) -> (r: Option<(Vec<u8>, usize)>)
    requires
        pos <= s.len(),
    ensures
        (match r {
            Option::Some(t) => pos < t.1 <= s.len() && spec_parse_quoted_alnum(s@.skip(pos as int))
                == Option::Some((t.0@, s@.skip(t.1 as int))),
            Option::None => spec_parse_quoted_alnum(s@.skip(pos as int)) is None,
        }),
{
    proof {
        if pos < s.len() {
            assert(s@.skip(pos as int)[0] == s@[pos as int]);
        }
    }
    if pos < s.len() && pos + 1 < s.len() && s[pos] == 34 {
        let e = alnum_end(s, pos + 1);
        proof {
            lemma_tail_tail(s@, pos as int, 1);
        }
        if e > pos + 1 && e < s.len() && s[e] == 34 {
            let tok = copy_range(s, pos + 1, e);
            proof {
                let ghost sq = s@.skip(pos as int);
                let ghost n = (e - pos - 1) as int;
                assert(sq[1 + n] == s@[e as int]);
                assert(sq.subrange(1, 1 + n) =~= s@.subrange(pos + 1, e as int));
                lemma_tail_tail(s@, pos as int, 2 + n);
            }
            Option::Some((tok, e + 1))
        } else {
            proof {
                let ghost sq = s@.skip(pos as int);
                let ghost n = alnum_len(sq.skip(1));
                if n > 0 && 1 + n < sq.len() {
                    assert(sq[1 + n as int] == s@[e as int]);
                }
            }
            Option::None
        }
    } else {
        Option::None
    }
}

fn p_name(s: &Vec<u8>, pos: usize) -> (r: Option<(Vec<u8>, usize)>)
    requires
        pos <= s.len(),
    ensures
        (match r {
            Option::Some(t) => pos < t.1 <= s.len() && spec_parse_name(s@.skip(pos as int))
                == Option::Some((t.0@, s@.skip(t.1 as int))),
            Option::None => spec_parse_name(s@.skip(pos as int)) is None,
        }),
{
    let first = p_alnum(s, pos);
    if first.is_some() {
        first
    } else {
        p_quoted_any(s, pos)
    }
}

fn p_word(s: &Vec<u8>, pos: usize) -> (r: Option<(Vec<u8>, usize)>)
    requires
        pos <= s.len(),
    ensures
        (match r {
            Option::Some(t) => pos < t.1 <= s.len() && spec_parse_word(s@.skip(pos as int))
                == Option::Some((t.0@, s@.skip(t.1 as int))),
            Option::None => spec_parse_word(s@.skip(pos as int)) is None,
        }),
{
    let first = p_alnum(s, pos);
    if first.is_some() {
        first
    } else {
        p_quoted_alnum(s, pos)
    }
}

/// One `key : value` parameter starting at `pos`; on success the
/// returned position stands after the pair and its trailing whitespace.
pub fn parse_param(s: &Vec<u8>, pos: usize) -> (r: Option<(ParamPair, usize)>)
    requires
        pos <= s.len(),
    ensures
        (match r {
            Option::Some(t) => pos < t.1 <= s.len() && spec_parse_param(s@.skip(pos as int))
                == Option::Some(((t.0.0@, t.0.1@), s@.skip(t.1 as int))),
            Option::None => spec_parse_param(s@.skip(pos as int)) is None,
        }),
{
    match p_word(s, pos) {
        Option::None => Option::None,
        Option::Some((k, p1)) => {
            let p2 = skip_sp_at(s, p1);
            proof {
                if p2 < s.len() {
                    assert(s@.skip(p2 as int)[0] == s@[p2 as int]);
                }
            }
            if p2 < s.len() && s[p2] == 58 {
                proof {
                    lemma_tail_tail(s@, p2 as int, 1);
                }
                let p3 = skip_sp_at(s, p2 + 1);
                match p_word(s, p3) {
                    Option::None => Option::None,
                    Option::Some((v, p4)) => {
                        let p5 = skip_ms_at(s, p4);
                        Option::Some(((k, v), p5))
                    },
                }
            } else {
                Option::None
            }
        },
    }
}

proof fn lemma_params_view_insert(l: Seq<ParamPair>, p: ParamPair)
    ensures
        params_view(l.insert(0, p)) == seq![(p.0@, p.1@)]
            + params_view(l),
{
    assert(params_view(l.insert(0, p)) =~= seq![(p.0@, p.1@)]
        + params_view(l));
}

fn p_params_list(s: &Vec<u8>, pos: usize) -> (rl: (ParamList, usize))
    requires
        pos <= s.len(),
    ensures
        pos <= rl.1 <= s.len(),
        spec_parse_params_list(s@.skip(pos as int)).0 == params_view(rl.0@),
        spec_parse_params_list(s@.skip(pos as int)).1 == s@.skip(rl.1 as int),
    decreases s.len() - pos,
{
    let e = skip_ms_at(s, pos);
    match parse_param(s, e) {
        Option::None => (Vec::new(), pos),
        Option::Some((p, rp)) => {
            let rec = p_params_list(s, rp);
            let mut l = rec.0;
            let rest = rec.1;
            l.insert(0, p);
            proof {
                lemma_params_view_insert(rec.0@, p);
            }
            (l, rest)
        },
    }
}

fn paren_params(s: &Vec<u8>, pos: usize) -> (r: ParamsOut)
    requires
        pos <= s.len(),
    ensures
        (match r {
            Option::Some(t) => pos < t.1 <= s.len() && spec_parse_params(s@.skip(pos as int))
                == Option::Some((params_view(t.0@), s@.skip(t.1 as int))),
            Option::None => spec_parse_params(s@.skip(pos as int)) is None,
        }),
{
    proof {
        if pos < s.len() {
            assert(s@.skip(pos as int)[0] == s@[pos as int]);
        }
    }
    if pos < s.len() && s[pos] == 40 {
        proof {
            lemma_tail_tail(s@, pos as int, 1);
        }
        let lr = p_params_list(s, pos + 1);
        let lvec = lr.0;
        let lend: usize = lr.1;
        proof {
            if lend < s.len() {
                assert(s@.skip(lend as int)[0] == s@[lend as int]);
            }
        }
        if lend < s.len() && s[lend] == 41 {
            proof {
                lemma_tail_tail(s@, lend as int, 1);
            }
            Option::Some((lvec, lend + 1))
        } else {
            Option::None
        }
    } else {
        Option::None
    }
}


proof fn lemma_q_view_list_insert(l: Seq<QueryObject>, t: QueryObject)
    ensures
        crate::ast::q_view_list(l.insert(0, t)) == seq![t@] + crate::ast::q_view_list(l),
{
    let s2 = l.insert(0, t);
    assert(s2.len() == l.len() + 1);
    assert(s2[0] == t);
    assert(s2.drop_first() =~= l);
}

proof fn lemma_m_view_list_insert(l: Seq<MutationObject>, t: MutationObject)
    ensures
        crate::ast::m_view_list(l.insert(0, t)) == seq![t@] + crate::ast::m_view_list(l),
{
    let s2 = l.insert(0, t);
    assert(s2.len() == l.len() + 1);
    assert(s2[0] == t);
    assert(s2.drop_first() =~= l);
}

// ---------------------------------------------------------------------
// Executable query parser
// ---------------------------------------------------------------------
fn p_qobj(s: &Vec<u8>, pos: usize) -> (r: Option<(QueryObject, usize)>)
    requires
        pos <= s.len(),
    ensures
        (match r {
            Option::Some(t) => pos < t.1 <= s.len() && spec_parse_qobj(s@.skip(pos as int))
                == Option::Some((t.0@, s@.skip(t.1 as int))),
            Option::None => spec_parse_qobj(s@.skip(pos as int)) is None,
        }),
    decreases s.len() - pos, 0nat,
{
    let e = skip_ms_at(s, pos);
    match p_name(s, e) {
        Option::None => Option::None,
        Option::Some((name, p2)) => {
            let p3 = skip_sp_at(s, p2);
            let mut params: Option<ParamList> = Option::None;
            let mut p4: usize = p3;
            match paren_params(s, p3) {
                Option::None => {},
                Option::Some((pl, pp)) => {
                    params = Option::Some(pl);
                    p4 = pp;
                },
            }
            let p5 = skip_sp_at(s, p4);
            proof {
                if p5 < s.len() {
                    assert(s@.skip(p5 as int)[0] == s@[p5 as int]);
                }
            }
            if p5 < s.len() && s[p5] == 123 {
                proof {
                    lemma_tail_tail(s@, p5 as int, 1);
                }
                let lr = p_qobj_list(s, p5 + 1);
                let ats = lr.0;
                let lend: usize = lr.1;
                proof {
                    if lend < s.len() {
                        assert(s@.skip(lend as int)[0] == s@[lend as int]);
                    }
                }
                if lend < s.len() && s[lend] == 125 {
                    proof {
                        lemma_tail_tail(s@, lend as int, 1);
                    }
                    let pfin = skip_ms_at(s, lend + 1);
                    let t = QueryObject { name, params, attrs: Option::Some(ats) };
                    Option::Some((t, pfin))
                } else {
                    Option::None
                }
            } else {
                let pfin = skip_ms_at(s, p5);
                let t = QueryObject { name, params, attrs: Option::None };
                Option::Some((t, pfin))
            }
        },
    }
}

fn p_qobj_list(s: &Vec<u8>, pos: usize) -> (rl: (Vec<QueryObject>, usize))
    requires
        pos <= s.len(),
    ensures
        pos <= rl.1 <= s.len(),
        spec_parse_qobj_list(s@.skip(pos as int)).0 == crate::ast::q_view_list(rl.0@),
        spec_parse_qobj_list(s@.skip(pos as int)).1 == s@.skip(rl.1 as int),
    decreases s.len() - pos, 1nat,
{
    match p_qobj(s, pos) {
        Option::None => (Vec::new(), pos),
        Option::Some((t, rp)) => {
            let rec = p_qobj_list(s, rp);
            let mut l = rec.0;
            let rest: usize = rec.1;
            l.insert(0, t);
            proof {
                lemma_q_view_list_insert(rec.0@, t);
            }
            (l, rest)
        },
    }
}

/// Parse one complete read query; succeeds exactly when the whole input
/// is one braced query object per the grammar.
pub fn parse_query(s: &Vec<u8>) -> (r: Option<QueryObject>)
    ensures
        (match r {
            Option::Some(t) => spec_parse_query(s@) == Option::Some(t@),
            Option::None => spec_parse_query(s@) is None,
        }),
{
    proof {
        assert(s@.skip(0) =~= s@);
    }
    let e = skip_ms_at(s, 0);
    proof {
        if e < s.len() {
            assert(s@.skip(e as int)[0] == s@[e as int]);
        }
    }
    if e < s.len() && s[e] == 123 {
        proof {
            lemma_tail_tail(s@, e as int, 1);
        }
        match p_qobj(s, e + 1) {
            Option::None => Option::None,
            Option::Some((t, p)) => {
                proof {
                    if p < s.len() {
                        assert(s@.skip(p as int)[0] == s@[p as int]);
                    }
                }
                if p < s.len() && s[p] == 125 {
                    proof {
                        lemma_tail_tail(s@, p as int, 1);
                    }
                    let p2 = skip_ms_at(s, p + 1);
                    if p2 == s.len() {
                        Option::Some(t)
                    } else {
                        Option::None
                    }
                } else {
                    Option::None
                }
            },
        }
    } else {
        Option::None
    }
}

// ---------------------------------------------------------------------
// Executable mutation parser
// ---------------------------------------------------------------------
fn p_mval(s: &Vec<u8>, pos: usize) -> (r: Option<(Vec<u8>, usize)>)
    requires
        pos <= s.len(),
    ensures
        (match r {
            Option::Some(t) => pos < t.1 <= s.len() && spec_parse_mval(s@.skip(pos as int))
                == Option::Some((t.0@, s@.skip(t.1 as int))),
            Option::None => spec_parse_mval(s@.skip(pos as int)) is None,
        }),
{
    proof {
        if pos < s.len() {
            assert(s@.skip(pos as int)[0] == s@[pos as int]);
        }
    }
    if pos < s.len() && s[pos] == 58 {
        proof {
            lemma_tail_tail(s@, pos as int, 1);
        }
        let p1 = skip_sp_at(s, pos + 1);
        p_name(s, p1)
    } else {
        Option::None
    }
}

fn p_mobj(s: &Vec<u8>, pos: usize) -> (r: Option<(MutationObject, usize)>)
    requires
        pos <= s.len(),
    ensures
        (match r {
            Option::Some(t) => pos < t.1 <= s.len() && spec_parse_mobj(s@.skip(pos as int))
                == Option::Some((t.0@, s@.skip(t.1 as int))),
            Option::None => spec_parse_mobj(s@.skip(pos as int)) is None,
        }),
    decreases s.len() - pos, 0nat,
{
    let e = skip_ms_at(s, pos);
    match p_name(s, e) {
        Option::None => Option::None,
        Option::Some((name, p2)) => {
            let p3 = skip_sp_at(s, p2);
            let mut value: Option<Vec<u8>> = Option::None;
            let mut p4: usize = p3;
            match p_mval(s, p3) {
                Option::None => {},
                Option::Some((v, vp)) => {
                    value = Option::Some(v);
                    p4 = vp;
                },
            }
            let mut params: Option<ParamList> = Option::None;
            let mut p5: usize = p4;
            match paren_params(s, p4) {
                Option::None => {},
                Option::Some((pl, pp)) => {
                    params = Option::Some(pl);
                    p5 = pp;
                },
            }
            let p6 = skip_sp_at(s, p5);
            proof {
                if p6 < s.len() {
                    assert(s@.skip(p6 as int)[0] == s@[p6 as int]);
                }
            }
            if p6 < s.len() && s[p6] == 123 {
                proof {
                    lemma_tail_tail(s@, p6 as int, 1);
                }
                let lr = p_mobj_list(s, p6 + 1);
                let ats = lr.0;
                let lend: usize = lr.1;
                proof {
                    if lend < s.len() {
                        assert(s@.skip(lend as int)[0] == s@[lend as int]);
                    }
                }
                if lend < s.len() && s[lend] == 125 {
                    proof {
                        lemma_tail_tail(s@, lend as int, 1);
                    }
                    let pfin = skip_ms_at(s, lend + 1);
                    let t = MutationObject { name, value, params, attrs: Option::Some(ats) };
                    Option::Some((t, pfin))
                } else {
                    Option::None
                }
            } else {
                let pfin = skip_ms_at(s, p6);
                let t = MutationObject { name, value, params, attrs: Option::None };
                Option::Some((t, pfin))
            }
        },
    }
}

fn p_mobj_list(s: &Vec<u8>, pos: usize) -> (rl: (Vec<MutationObject>, usize))
    requires
        pos <= s.len(),
    ensures
        pos <= rl.1 <= s.len(),
        spec_parse_mobj_list(s@.skip(pos as int)).0 == crate::ast::m_view_list(rl.0@),
        spec_parse_mobj_list(s@.skip(pos as int)).1 == s@.skip(rl.1 as int),
    decreases s.len() - pos, 1nat,
{
    match p_mobj(s, pos) {
        Option::None => (Vec::new(), pos),
        Option::Some((t, rp)) => {
            let rec = p_mobj_list(s, rp);
            let mut l = rec.0;
            let rest: usize = rec.1;
            l.insert(0, t);
            proof {
                lemma_m_view_list_insert(rec.0@, t);
            }
            (l, rest)
        },
    }
}

/// Parse one complete mutation; succeeds exactly when the whole input is
/// one braced mutation object per the grammar.
pub fn parse_mutation_query(s: &Vec<u8>) -> (r: Option<MutationObject>)
    ensures
        (match r {
            Option::Some(t) => spec_parse_mutation(s@) == Option::Some(t@),
            Option::None => spec_parse_mutation(s@) is None,
        }),
{
    proof {
        assert(s@.skip(0) =~= s@);
    }
    let e = skip_ms_at(s, 0);
    proof {
        if e < s.len() {
            assert(s@.skip(e as int)[0] == s@[e as int]);
        }
    }
    if e < s.len() && s[e] == 123 {
        proof {
            lemma_tail_tail(s@, e as int, 1);
        }
        match p_mobj(s, e + 1) {
            Option::None => Option::None,
            Option::Some((t, p)) => {
                proof {
                    if p < s.len() {
                        assert(s@.skip(p as int)[0] == s@[p as int]);
                    }
                }
                if p < s.len() && s[p] == 125 {
                    proof {
                        lemma_tail_tail(s@, p as int, 1);
                    }
                    let p2 = skip_ms_at(s, p + 1);
                    if p2 == s.len() {
                        Option::Some(t)
                    } else {
                        Option::None
                    }
                } else {
                    Option::None
                }
            },
        }
    } else {
        Option::None
    }
}


/// Parse one complete read query, reporting on failure the byte offset
/// at which parsing stopped: the opening brace position, the start of
/// the object that failed, the missing closing brace, or the first
/// trailing byte.  Success and failure exactly match `parse_query`; the
/// offset itself is diagnostic.
pub fn parse_query_reported(s: &Vec<u8>) -> (r: Result<QueryObject, usize>)
    ensures
        (match r {
            Result::Ok(t) => spec_parse_query(s@) == Option::Some(t@),
            Result::Err(p) => spec_parse_query(s@) is None && p <= s@.len(),
        }),
{
    proof {
        assert(s@.skip(0) =~= s@);
    }
    let e = skip_ms_at(s, 0);
    proof {
        if e < s.len() {
            assert(s@.skip(e as int)[0] == s@[e as int]);
        }
    }
    if e < s.len() && s[e] == 123 {
        proof {
            lemma_tail_tail(s@, e as int, 1);
        }
        match p_qobj(s, e + 1) {
            Option::None => Result::Err(e + 1),
            Option::Some((t, p)) => {
                proof {
                    if p < s.len() {
                        assert(s@.skip(p as int)[0] == s@[p as int]);
                    }
                }
                if p < s.len() && s[p] == 125 {
                    proof {
                        lemma_tail_tail(s@, p as int, 1);
                    }
                    let p2 = skip_ms_at(s, p + 1);
                    if p2 == s.len() {
                        Result::Ok(t)
                    } else {
                        Result::Err(p2)
                    }
                } else {
                    Result::Err(p)
                }
            },
        }
    } else {
        Result::Err(e)
    }
}

/// Parse one complete mutation, reporting on failure the byte offset at
/// which parsing stopped, as `parse_query_reported` does for queries.
pub fn parse_mutation_reported(s: &Vec<u8>) -> (r: Result<MutationObject, usize>)
    ensures
        (match r {
            Result::Ok(t) => spec_parse_mutation(s@) == Option::Some(t@),
            Result::Err(p) => spec_parse_mutation(s@) is None && p <= s@.len(),
        }),
{
    proof {
        assert(s@.skip(0) =~= s@);
    }
    let e = skip_ms_at(s, 0);
    proof {
        if e < s.len() {
            assert(s@.skip(e as int)[0] == s@[e as int]);
        }
    }
    if e < s.len() && s[e] == 123 {
        proof {
            lemma_tail_tail(s@, e as int, 1);
        }
        match p_mobj(s, e + 1) {
            Option::None => Result::Err(e + 1),
            Option::Some((t, p)) => {
                proof {
                    if p < s.len() {
                        assert(s@.skip(p as int)[0] == s@[p as int]);
                    }
                }
                if p < s.len() && s[p] == 125 {
                    proof {
                        lemma_tail_tail(s@, p as int, 1);
                    }
                    let p2 = skip_ms_at(s, p + 1);
                    if p2 == s.len() {
                        Result::Ok(t)
                    } else {
                        Result::Err(p2)
                    }
                } else {
                    Result::Err(p)
                }
            },
        }
    } else {
        Result::Err(e)
    }
}

// ---------------------------------------------------------------------
// Executable schema-declaration parser
// ---------------------------------------------------------------------
/// Mathematical view of a field-declaration list.
pub open spec fn fields_view(l: Seq<FieldDef>) -> Seq<(Seq<u8>, Seq<u8>, bool)> {
    l.map_values(|f: FieldDef| (f.0@, f.1@, f.2))
}

/// Mathematical view of a declaration list.
pub open spec fn objects_view(l: Seq<ObjectDef>) -> Seq<(Seq<u8>, Seq<(Seq<u8>, Seq<u8>, bool)>)> {
    l.map_values(|o: ObjectDef| (o.0@, fields_view(o.1@)))
}

proof fn lemma_fields_view_insert(l: Seq<FieldDef>, f: FieldDef)
    ensures
        fields_view(l.insert(0, f)) == seq![(f.0@, f.1@, f.2)] + fields_view(l),
{
    assert(fields_view(l.insert(0, f)) =~= seq![(f.0@, f.1@, f.2)] + fields_view(l));
}

proof fn lemma_objects_view_insert(l: Seq<ObjectDef>, o: ObjectDef)
    ensures
        objects_view(l.insert(0, o)) == seq![(o.0@, fields_view(o.1@))] + objects_view(l),
{
    assert(objects_view(l.insert(0, o)) =~= seq![(o.0@, fields_view(o.1@))] + objects_view(l));
}

/// One schema field declaration starting at `pos`.
pub fn parse_field(s: &Vec<u8>, pos: usize) -> (r: Option<(FieldDef, usize)>)
    requires
        pos <= s.len(),
    ensures
        (match r {
            Option::Some(t) => pos < t.1 <= s.len() && spec_parse_field(s@.skip(pos as int))
                == Option::Some(((t.0.0@, t.0.1@, t.0.2), s@.skip(t.1 as int))),
            Option::None => spec_parse_field(s@.skip(pos as int)) is None,
        }),
{
    match p_alnum(s, pos) {
        Option::None => Option::None,
        Option::Some((k, p1)) => {
            let p2 = skip_sp_at(s, p1);
            proof {
                if p2 < s.len() {
                    assert(s@.skip(p2 as int)[0] == s@[p2 as int]);
                }
            }
            if p2 < s.len() && s[p2] == 58 {
                proof {
                    lemma_tail_tail(s@, p2 as int, 1);
                }
                let p3 = skip_sp_at(s, p2 + 1);
                let e = until_stop_end(s, p3);
                if e < s.len() {
                    let v = copy_range(s, p3, e);
                    proof {
                        lemma_tail_take(s@, p3 as int, e - p3);
                        lemma_tail_tail(s@, p3 as int, e - p3);
                    }
                    let p4 = skip_sp_at(s, e);
                    proof {
                        if p4 < s.len() {
                            assert(s@.skip(p4 as int)[0] == s@[p4 as int]);
                        }
                    }
                    if p4 < s.len() && s[p4] == 33 {
                        proof {
                            lemma_tail_tail(s@, p4 as int, 1);
                        }
                        let p5 = skip_ms_at(s, p4 + 1);
                        Option::Some(((k, v, true), p5))
                    } else {
                        let p5 = skip_ms_at(s, p4);
                        Option::Some(((k, v, false), p5))
                    }
                } else {
                    Option::None
                }
            } else {
                Option::None
            }
        },
    }
}

fn p_fields_list(s: &Vec<u8>, pos: usize) -> (rl: (Vec<FieldDef>, usize))
    requires
        pos <= s.len(),
    ensures
        pos <= rl.1 <= s.len(),
        spec_parse_fields_list(s@.skip(pos as int)).0 == fields_view(rl.0@),
        spec_parse_fields_list(s@.skip(pos as int)).1 == s@.skip(rl.1 as int),
    decreases s.len() - pos,
{
    let e = skip_ms_at(s, pos);
    match parse_field(s, e) {
        Option::None => (Vec::new(), pos),
        Option::Some((f, rp)) => {
            let rec = p_fields_list(s, rp);
            let mut l = rec.0;
            let rest: usize = rec.1;
            l.insert(0, f);
            proof {
                lemma_fields_view_insert(rec.0@, f);
            }
            (l, rest)
        },
    }
}

/// A braced field-declaration list starting at `pos`.
pub fn parse_object_attributes(s: &Vec<u8>, pos: usize) -> (r: Option<(Vec<FieldDef>, usize)>)
    requires
        pos <= s.len(),
    ensures
        (match r {
            Option::Some(t) => pos < t.1 <= s.len() && spec_parse_object_attrs(
                s@.skip(pos as int),
            ) == Option::Some((fields_view(t.0@), s@.skip(t.1 as int))),
            Option::None => spec_parse_object_attrs(s@.skip(pos as int)) is None,
        }),
{
    proof {
        if pos < s.len() {
            assert(s@.skip(pos as int)[0] == s@[pos as int]);
        }
    }
    if pos < s.len() && s[pos] == 123 {
        proof {
            lemma_tail_tail(s@, pos as int, 1);
        }
        let lr = p_fields_list(s, pos + 1);
        let lvec = lr.0;
        let lend: usize = lr.1;
        proof {
            if lend < s.len() {
                assert(s@.skip(lend as int)[0] == s@[lend as int]);
            }
        }
        if lend < s.len() && s[lend] == 125 {
            proof {
                lemma_tail_tail(s@, lend as int, 1);
            }
            Option::Some((lvec, lend + 1))
        } else {
            Option::None
        }
    } else {
        Option::None
    }
}

/// One `type Name { ... }` declaration starting at `pos`.
pub fn parse_object(s: &Vec<u8>, pos: usize) -> (r: Option<(ObjectDef, usize)>)
    requires
        pos <= s.len(),
    ensures
        (match r {
            Option::Some(t) => pos < t.1 <= s.len() && spec_parse_object(s@.skip(pos as int))
                == Option::Some(((t.0.0@, fields_view(t.0.1@)), s@.skip(t.1 as int))),
            Option::None => spec_parse_object(s@.skip(pos as int)) is None,
        }),
{
    proof {
        let ghost sq = s@.skip(pos as int);
        assert forall|i: int| 0 <= i < sq.len() implies sq[i] == s@[pos + i] by {}
    }
    if s.len() - pos >= 5 && s[pos] == 116 && s[pos + 1] == 121 && s[pos + 2] == 112 && s[pos
        + 3] == 101 && is_sp_b(s[pos + 4]) {
        proof {
            lemma_tail_tail(s@, pos as int, 4);
        }
        let r1 = skip_sp_at(s, pos + 4);
        match p_alnum(s, r1) {
            Option::None => Option::None,
            Option::Some((name, r2)) => {
                let r3 = skip_ms_at(s, r2);
                match parse_object_attributes(s, r3) {
                    Option::None => Option::None,
                    Option::Some((fields, r4)) => Option::Some(((name, fields), r4)),
                }
            },
        }
    } else {
        Option::None
    }
}

fn p_objects_list(s: &Vec<u8>, pos: usize) -> (rl: (Vec<ObjectDef>, usize))
    requires
        pos <= s.len(),
    ensures
        pos <= rl.1 <= s.len(),
        spec_parse_objects_list(s@.skip(pos as int)).0 == objects_view(rl.0@),
        spec_parse_objects_list(s@.skip(pos as int)).1 == s@.skip(rl.1 as int),
    decreases s.len() - pos,
{
    let e = skip_ms_at(s, pos);
    match parse_object(s, e) {
        Option::None => (Vec::new(), pos),
        Option::Some((o, rp)) => {
            let r2 = skip_ms_at(s, rp);
            let rec = p_objects_list(s, r2);
            let mut l = rec.0;
            let rest: usize = rec.1;
            l.insert(0, o);
            proof {
                lemma_objects_view_insert(rec.0@, o);
            }
            (l, rest)
        },
    }
}

/// Parse a whole schema description; succeeds exactly when the entire
/// input is a sequence of type declarations.
pub fn parse_all_objects(s: &Vec<u8>) -> (r: Option<Vec<ObjectDef>>)
    ensures
        (match r {
            Option::Some(l) => spec_parse_all_objects(s@) == Option::Some(objects_view(l@)),
            Option::None => spec_parse_all_objects(s@) is None,
        }),
{
    proof {
        assert(s@.skip(0) =~= s@);
    }
    let lr = p_objects_list(s, 0);
    let lvec = lr.0;
    let lend: usize = lr.1;
    if lend == s.len() {
        Option::Some(lvec)
    } else {
        Option::None
    }
}

} // verus!
