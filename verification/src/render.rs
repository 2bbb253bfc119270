//! Canonical text for syntax trees, and the proof that parsing a
//! canonical rendering gives the tree back: parse-then-render round
//! trips are the identity on well-formed trees.

use vstd::prelude::*;

use crate::ast::MTree;
use crate::ast::MutationObject;
use crate::ast::QTree;
use crate::ast::QueryObject;
use crate::ast::bare_ok;
use crate::ast::is_alnum;
use crate::ast::is_ms;
use crate::ast::is_sp;
use crate::ast::m_view_list;
use crate::ast::name_ok;
use crate::ast::params_ok;
use crate::ast::params_view;
use crate::ast::q_view_list;
use crate::ast::qtrees_wf;
use crate::parser::ParamList;

verus! {

// ---------------------------------------------------------------------
// Canonical rendering, spec side
// ---------------------------------------------------------------------
/// A name or value: bare when it can be, quoted otherwise.
pub open spec fn render_name(n: Seq<u8>) -> Seq<u8> {
    if bare_ok(n) {
        n
    } else {
        seq![34u8] + n + seq![34u8]
    }
}

/// `k:v` pairs separated by one space, from index `i` on.
pub open spec fn render_items(ps: Seq<(Seq<u8>, Seq<u8>)>, i: int) -> Seq<u8>
    decreases ps.len() - i,
{
    if i < 0 || i >= ps.len() {
        Seq::empty()
    } else if i + 1 >= ps.len() {
        ps[i].0 + seq![58u8] + ps[i].1
    } else {
        ps[i].0 + seq![58u8] + ps[i].1 + seq![32u8] + render_items(ps, i + 1)
    }
}

/// A parameter list in parentheses; an absent list renders as nothing,
/// an empty one as `()`.
pub open spec fn render_params(ps: Option<Seq<(Seq<u8>, Seq<u8>)>>) -> Seq<u8> {
    match ps {
        Option::None => Seq::empty(),
        Option::Some(l) => seq![40u8] + render_items(l, 0) + seq![41u8],
    }
}

/// One query object in canonical form.
pub open spec fn render_qobj(t: QTree) -> Seq<u8>
    decreases t, 1nat,
{
    render_name(t.name) + render_params(t.params) + (match t.attrs {
        Option::None => Seq::empty(),
        Option::Some(l) => seq![123u8] + render_qlist(l, 0) + seq![125u8],
    })
}

/// Child query objects separated by one space, from index `i` on.
pub open spec fn render_qlist(l: Seq<QTree>, i: int) -> Seq<u8>
    decreases l, 0nat, l.len() - i,
{
    if i < 0 || i >= l.len() {
        Seq::empty()
    } else if i + 1 >= l.len() {
        render_qobj(l[i])
    } else {
        render_qobj(l[i]) + seq![32u8] + render_qlist(l, i + 1)
    }
}

/// A whole read query in canonical form.
pub open spec fn render_query(t: QTree) -> Seq<u8> {
    seq![123u8] + render_qobj(t) + seq![125u8]
}

/// The optional `:value` part of a mutation object.
pub open spec fn render_mval(v: Option<Seq<u8>>) -> Seq<u8> {
    match v {
        Option::None => Seq::empty(),
        Option::Some(x) => seq![58u8] + render_name(x),
    }
}

/// One mutation object in canonical form.
pub open spec fn render_mobj(t: MTree) -> Seq<u8>
    decreases t, 1nat,
{
    render_name(t.name) + render_mval(t.value) + render_params(t.params) + (match t.attrs {
        Option::None => Seq::empty(),
        Option::Some(l) => seq![123u8] + render_mlist(l, 0) + seq![125u8],
    })
}

/// Child mutation objects separated by one space, from index `i` on.
pub open spec fn render_mlist(l: Seq<MTree>, i: int) -> Seq<u8>
    decreases l, 0nat, l.len() - i,
{
    if i < 0 || i >= l.len() {
        Seq::empty()
    } else if i + 1 >= l.len() {
        render_mobj(l[i])
    } else {
        render_mobj(l[i]) + seq![32u8] + render_mlist(l, i + 1)
    }
}

/// A whole mutation in canonical form.
pub open spec fn render_mutation(t: MTree) -> Seq<u8> {
    seq![123u8] + render_mobj(t) + seq![125u8]
}

// ---------------------------------------------------------------------
// Canonical rendering, executable side
// ---------------------------------------------------------------------
fn is_bare(n: &Vec<u8>) -> (r: bool)
    ensures
        r == bare_ok(n@),
{
    if n.len() == 0 {
        return false;
    }
    let mut i: usize = 0;
    while i < n.len()
        invariant
            i <= n.len(),
            n@.len() > 0,
            forall|j: int| 0 <= j < i ==> is_alnum(#[trigger] n@[j]),
        decreases n.len() - i,
    {
        let b = n[i];
        if !((48 <= b && b <= 57) || (65 <= b && b <= 90) || (97 <= b && b <= 122)) {
            return false;
        }
        i = i + 1;
    }
    true
}

fn clone_bytes(v: &Vec<u8>) -> (r: Vec<u8>)
    ensures
        r@ == v@,
{
    let mut out: Vec<u8> = Vec::new();
    let mut i: usize = 0;
    while i < v.len()
        invariant
            i <= v.len(),
            out@ == v@.subrange(0, i as int),
        decreases v.len() - i,
    {
        out.push(v[i]);
        proof {
            assert(v@.subrange(0, i as int + 1) =~= v@.subrange(0, i as int) + seq![v@[i as int]]);
        }
        i = i + 1;
    }
    proof {
        assert(v@.subrange(0, v@.len() as int) =~= v@);
    }
    out
}

fn push_all(out: &mut Vec<u8>, xs: Vec<u8>)
    ensures
        final(out)@ == old(out)@ + xs@,
{
    let mut xs = xs;
    out.append(&mut xs);
}

fn render_name_x(n: &Vec<u8>) -> (r: Vec<u8>)
    ensures
        r@ == render_name(n@),
{
    if is_bare(n) {
        clone_bytes(n)
    } else {
        let mut out: Vec<u8> = Vec::new();
        out.push(34);
        push_all(&mut out, clone_bytes(n));
        out.push(34);
        proof {
            assert(out@ =~= seq![34u8] + n@ + seq![34u8]);
        }
        out
    }
}

fn render_items_x(ps: &ParamList, i: usize) -> (r: Vec<u8>)
    ensures
        r@ == render_items(params_view(ps@), i as int),
    decreases ps.len() - i,
{
    proof {
        if i < ps.len() {
            assert(params_view(ps@)[i as int] == (ps@[i as int].0@, ps@[i as int].1@));
        }
    }
    if i >= ps.len() {
        Vec::new()
    } else {
        let mut out = clone_bytes(&ps[i].0);
        out.push(58);
        push_all(&mut out, clone_bytes(&ps[i].1));
        if i + 1 >= ps.len() {
            proof {
                assert(out@ =~= params_view(ps@)[i as int].0 + seq![58u8] + params_view(
                    ps@,
                )[i as int].1);
            }
            out
        } else {
            out.push(32);
            push_all(&mut out, render_items_x(ps, i + 1));
            proof {
                assert(out@ =~= params_view(ps@)[i as int].0 + seq![58u8] + params_view(
                    ps@,
                )[i as int].1 + seq![32u8] + render_items(params_view(ps@), i as int + 1));
            }
            out
        }
    }
}

fn render_params_x(ps: &Option<ParamList>) -> (r: Vec<u8>)
    ensures
        r@ == render_params(crate::translate::opt_params_view(*ps)),
{
    match ps {
        Option::None => Vec::new(),
        Option::Some(l) => {
            let mut out: Vec<u8> = Vec::new();
            out.push(40);
            push_all(&mut out, render_items_x(l, 0));
            out.push(41);
            proof {
                assert(out@ =~= seq![40u8] + render_items(params_view(l@), 0) + seq![41u8]);
            }
            out
        },
    }
}

fn render_qobj_x(t: &QueryObject) -> (r: Vec<u8>)
    ensures
        r@ == render_qobj(t@),
    decreases *t, 1nat,
{
    let mut out = render_name_x(&t.name);
    push_all(&mut out, render_params_x(&t.params));
    match &t.attrs {
        Option::None => {
            proof {
                assert(out@ =~= render_qobj(t@));
            }
            out
        },
        Option::Some(l) => {
            out.push(123);
            push_all(&mut out, render_qlist_x(l, 0));
            out.push(125);
            proof {
                assert(out@ =~= render_name(t@.name) + render_params(t@.params) + (seq![123u8]
                    + render_qlist(q_view_list(l@), 0) + seq![125u8]));
            }
            out
        },
    }
}

fn render_qlist_x(l: &Vec<QueryObject>, i: usize) -> (r: Vec<u8>)
    ensures
        r@ == render_qlist(q_view_list(l@), i as int),
    decreases l@, 0nat, l.len() - i,
{
    proof {
        crate::ast::lemma_q_view_list_len(l@);
        if i < l.len() {
            crate::ast::lemma_q_view_list_index(l@, i as int);
        }
    }
    if i >= l.len() {
        Vec::new()
    } else if i + 1 >= l.len() {
        render_qobj_x(&l[i])
    } else {
        let mut out = render_qobj_x(&l[i]);
        out.push(32);
        push_all(&mut out, render_qlist_x(l, i + 1));
        proof {
            assert(out@ =~= render_qobj(q_view_list(l@)[i as int]) + seq![32u8] + render_qlist(
                q_view_list(l@),
                i as int + 1,
            ));
        }
        out
    }
}

/// Render a query tree to its canonical text.
pub fn render_query_text(t: &QueryObject) -> (r: Vec<u8>)
    ensures
        r@ == render_query(t@),
{
    let mut out: Vec<u8> = Vec::new();
    out.push(123);
    push_all(&mut out, render_qobj_x(t));
    out.push(125);
    proof {
        assert(out@ =~= render_query(t@));
    }
    out
}

fn render_mobj_x(t: &MutationObject) -> (r: Vec<u8>)
    ensures
        r@ == render_mobj(t@),
    decreases *t, 1nat,
{
    let mut out = render_name_x(&t.name);
    match &t.value {
        Option::None => {},
        Option::Some(v) => {
            out.push(58);
            push_all(&mut out, render_name_x(v));
        },
    }
    proof {
        assert(out@ =~= render_name(t@.name) + render_mval(t@.value));
    }
    push_all(&mut out, render_params_x(&t.params));
    match &t.attrs {
        Option::None => {
            proof {
                assert(out@ =~= render_mobj(t@));
            }
            out
        },
        Option::Some(l) => {
            out.push(123);
            push_all(&mut out, render_mlist_x(l, 0));
            out.push(125);
            proof {
                assert(out@ =~= render_name(t@.name) + render_mval(t@.value) + render_params(
                    t@.params,
                ) + (seq![123u8] + render_mlist(m_view_list(l@), 0) + seq![125u8]));
            }
            out
        },
    }
}

fn render_mlist_x(l: &Vec<MutationObject>, i: usize) -> (r: Vec<u8>)
    ensures
        r@ == render_mlist(m_view_list(l@), i as int),
    decreases l@, 0nat, l.len() - i,
{
    proof {
        crate::ast::lemma_m_view_list_len(l@);
        if i < l.len() {
            crate::ast::lemma_m_view_list_index(l@, i as int);
        }
    }
    if i >= l.len() {
        Vec::new()
    } else if i + 1 >= l.len() {
        render_mobj_x(&l[i])
    } else {
        let mut out = render_mobj_x(&l[i]);
        out.push(32);
        push_all(&mut out, render_mlist_x(l, i + 1));
        proof {
            assert(out@ =~= render_mobj(m_view_list(l@)[i as int]) + seq![32u8] + render_mlist(
                m_view_list(l@),
                i as int + 1,
            ));
        }
        out
    }
}

/// Render a mutation tree to its canonical text.
pub fn render_mutation_text(t: &MutationObject) -> (r: Vec<u8>)
    ensures
        r@ == render_mutation(t@),
{
    let mut out: Vec<u8> = Vec::new();
    out.push(123);
    push_all(&mut out, render_mobj_x(t));
    out.push(125);
    proof {
        assert(out@ =~= render_mutation(t@));
    }
    out
}


// ---------------------------------------------------------------------
// Round trip, token level
// ---------------------------------------------------------------------
use crate::parser::alnum_len;
use crate::parser::skip_ms;
use crate::parser::skip_sp;
use crate::parser::spec_parse_alnum;
use crate::parser::spec_parse_name;
use crate::parser::spec_parse_param;
use crate::parser::spec_parse_params;
use crate::parser::spec_parse_params_list;
use crate::parser::spec_parse_qobj;
use crate::parser::spec_parse_qobj_list;
use crate::parser::spec_parse_query;
use crate::parser::spec_parse_quoted_any;
use crate::parser::spec_parse_word;
use crate::parser::until_quote_len;

proof fn lemma_alnum_concat(n: Seq<u8>, rest: Seq<u8>)
    requires
        forall|i: int| 0 <= i < n.len() ==> is_alnum(#[trigger] n[i]),
        rest.len() == 0 || !is_alnum(rest[0]),
    ensures
        alnum_len(n + rest) == n.len(),
    decreases n.len(),
{
    if n.len() == 0 {
        assert(n + rest =~= rest);
    } else {
        assert((n + rest)[0] == n[0]);
        assert((n + rest).drop_first() =~= n.drop_first() + rest);
        lemma_alnum_concat(n.drop_first(), rest);
    }
}

proof fn lemma_quote_concat(n: Seq<u8>, rest: Seq<u8>)
    requires
        name_ok(n),
        rest.len() >= 1,
        rest[0] == 34,
    ensures
        until_quote_len(n + rest) == n.len(),
    decreases n.len(),
{
    if n.len() == 0 {
        assert(n + rest =~= rest);
    } else {
        assert((n + rest)[0] == n[0]);
        assert((n + rest).drop_first() =~= n.drop_first() + rest);
        lemma_quote_concat(n.drop_first(), rest);
    }
}

proof fn lemma_parse_name_render(n: Seq<u8>, rest: Seq<u8>)
    requires
        name_ok(n),
        bare_ok(n) ==> rest.len() == 0 || !is_alnum(rest[0]),
    ensures
        spec_parse_name(render_name(n) + rest) == Option::Some((n, rest)),
{
    let s = render_name(n) + rest;
    if bare_ok(n) {
        lemma_alnum_concat(n, rest);
        assert(alnum_len(s) == n.len());
        assert(s.take(n.len() as int) =~= n);
        assert(s.skip(n.len() as int) =~= rest);
    } else {
        let q = seq![34u8];
        assert(render_name(n) =~= q + n + q);
        assert(s =~= q + (n + (q + rest)));
        assert(s[0] == 34);
        assert(!is_alnum(34));
        assert(alnum_len(s) == 0);
        assert(spec_parse_alnum(s) is None);
        assert(s.skip(1) =~= n + (q + rest));
        lemma_quote_concat(n, q + rest);
        assert(until_quote_len(s.skip(1)) == n.len());
        assert(s.len() == n.len() + 2 + rest.len());
        assert(s.subrange(1, 1 + n.len() as int) =~= n);
        assert(s.skip(2 + n.len() as int) =~= rest);
    }
}

proof fn lemma_parse_word_bare(w: Seq<u8>, rest: Seq<u8>)
    requires
        bare_ok(w),
        rest.len() == 0 || !is_alnum(rest[0]),
    ensures
        spec_parse_word(w + rest) == Option::Some((w, rest)),
{
    lemma_alnum_concat(w, rest);
    let s = w + rest;
    assert(s.take(w.len() as int) =~= w);
    assert(s.skip(w.len() as int) =~= rest);
}

proof fn lemma_skip_ms_nows(s: Seq<u8>)
    requires
        s.len() == 0 || !is_ms(s[0]),
    ensures
        skip_ms(s) == s,
{
}

proof fn lemma_skip_sp_nosp(s: Seq<u8>)
    requires
        s.len() == 0 || !is_sp(s[0]),
    ensures
        skip_sp(s) == s,
{
}

proof fn lemma_skip_ms_one(r: Seq<u8>)
    requires
        r.len() >= 1,
        r[0] == 32,
        r.len() == 1 || !is_ms(r[1]),
    ensures
        skip_ms(r) == r.skip(1),
{
    assert(r.drop_first() =~= r.skip(1));
    if r.len() > 1 {
        assert(r.skip(1)[0] == r[1]);
    }
    lemma_skip_ms_nows(r.skip(1));
}

proof fn lemma_skip_sp_one(r: Seq<u8>)
    requires
        r.len() >= 1,
        r[0] == 32,
        r.len() == 1 || !is_sp(r[1]),
    ensures
        skip_sp(r) == r.skip(1),
{
    assert(r.drop_first() =~= r.skip(1));
    if r.len() > 1 {
        assert(r.skip(1)[0] == r[1]);
    }
    lemma_skip_sp_nosp(r.skip(1));
}

proof fn lemma_parse_param_render(p: (Seq<u8>, Seq<u8>), rest: Seq<u8>)
    requires
        bare_ok(p.0),
        bare_ok(p.1),
        rest.len() == 0 || !is_alnum(rest[0]),
    ensures
        spec_parse_param(p.0 + seq![58u8] + p.1 + rest) == Option::Some((p, skip_ms(rest))),
{
    let s = p.0 + seq![58u8] + p.1 + rest;
    let after_key = seq![58u8] + (p.1 + rest);
    assert(s =~= p.0 + after_key);
    assert(after_key[0] == 58);
    assert(!is_alnum(58));
    lemma_parse_word_bare(p.0, after_key);
    assert(!is_sp(58));
    lemma_skip_sp_nosp(after_key);
    assert(after_key.skip(1) =~= p.1 + rest);
    assert((p.1 + rest)[0] == p.1[0]);
    assert(!is_sp(p.1[0]));
    lemma_skip_sp_nosp(p.1 + rest);
    lemma_parse_word_bare(p.1, rest);
}


// ---------------------------------------------------------------------
// Round trip, parameter lists
// ---------------------------------------------------------------------
proof fn lemma_params_items_render(l: Seq<(Seq<u8>, Seq<u8>)>, i: int, rest: Seq<u8>)
    requires
        params_ok(l),
        0 <= i <= l.len(),
        rest.len() >= 1,
        rest[0] == 41,
    ensures
        spec_parse_params_list(render_items(l, i) + rest) == (l.skip(i), rest),
    decreases l.len() - i,
{
    let s = render_items(l, i) + rest;
    if i >= l.len() {
        assert(s =~= rest);
        assert(l.skip(i) =~= Seq::<(Seq<u8>, Seq<u8>)>::empty());
        assert(!is_ms(41u8));
        lemma_skip_ms_nows(rest);
        assert(!is_alnum(41u8));
        assert(alnum_len(rest) == 0);
        assert(spec_parse_param(rest) is None);
    } else {
        let k = l[i].0;
        let v = l[i].1;
        assert(bare_ok(k) && bare_ok(v));
        assert(k.len() >= 1 && is_alnum(k[0]));
        if i + 1 >= l.len() {
            assert(s =~= (k + seq![58u8] + v) + rest);
            lemma_parse_param_render(l[i], rest);
            assert(!is_ms(41u8));
            lemma_skip_ms_nows(rest);
            // the list sees the item, then stops at the closing paren
            assert(s[0] == k[0]);
            assert(!is_ms(s[0]));
            lemma_skip_ms_nows(s);
            assert(spec_parse_param(s) == Option::Some((l[i], rest)));
            assert(rest.len() < s.len());
            lemma_params_items_render(l, i + 1, rest);
            assert(render_items(l, i + 1) + rest =~= rest);
            assert(seq![l[i]] + l.skip(i + 1) =~= l.skip(i));
        } else {
            let rest3 = render_items(l, i + 1) + rest;
            let rest2 = seq![32u8] + rest3;
            assert(s =~= (k + seq![58u8] + v) + rest2);
            assert(rest2[0] == 32);
            assert(!is_alnum(32u8));
            lemma_parse_param_render(l[i], rest2);
            // the parser's trailing whitespace skip eats the separator
            assert(l[i + 1].0.len() >= 1 && is_alnum(l[i + 1].0[0]));
            assert(render_items(l, i + 1)[0] == l[i + 1].0[0]);
            assert(rest3[0] == l[i + 1].0[0]);
            assert(rest2.drop_first() =~= rest3);
            assert(!is_ms(rest3[0]));
            lemma_skip_ms_nows(rest3);
            assert(skip_ms(rest2) == rest3);
            assert(s[0] == k[0]);
            assert(!is_ms(s[0]));
            lemma_skip_ms_nows(s);
            assert(spec_parse_param(s) == Option::Some((l[i], rest3)));
            assert(rest3.len() < s.len());
            lemma_params_items_render(l, i + 1, rest);
            assert(seq![l[i]] + l.skip(i + 1) =~= l.skip(i));
        }
    }
}

proof fn lemma_params_render_some(l: Seq<(Seq<u8>, Seq<u8>)>, rest: Seq<u8>)
    requires
        params_ok(l),
    ensures
        spec_parse_params(render_params(Option::Some(l)) + rest) == Option::Some((l, rest)),
{
    let s = render_params(Option::Some(l)) + rest;
    assert(s =~= seq![40u8] + (render_items(l, 0) + (seq![41u8] + rest)));
    assert(s[0] == 40);
    assert(s.skip(1) =~= render_items(l, 0) + (seq![41u8] + rest));
    lemma_params_items_render(l, 0, seq![41u8] + rest);
    assert(l.skip(0) =~= l);
    assert((seq![41u8] + rest)[0] == 41);
    assert((seq![41u8] + rest).skip(1) =~= rest);
}

// ---------------------------------------------------------------------
// Round trip, query objects
// ---------------------------------------------------------------------
/// What may follow a rendered object inside a canonical text: the
/// closing brace of its parent, or the one-space separator before a
/// sibling (whose first byte opens a name) or the closing brace.
pub open spec fn sep_ok(r: Seq<u8>) -> bool {
    r.len() >= 1 && (r[0] == 125 || (r[0] == 32 && r.len() >= 2 && (is_alnum(r[1]) || r[1] == 34
        || r[1] == 125)))
}

/// The suffix left after the parser's trailing whitespace skip.
pub open spec fn strip_sep(r: Seq<u8>) -> Seq<u8> {
    if r.len() >= 1 && r[0] == 32 {
        r.skip(1)
    } else {
        r
    }
}

proof fn lemma_render_name_first(n: Seq<u8>)
    requires
        name_ok(n),
    ensures
        render_name(n).len() >= 1,
        is_alnum(render_name(n)[0]) || render_name(n)[0] == 34,
{
    if !bare_ok(n) {
        assert(render_name(n) =~= seq![34u8] + n + seq![34u8]);
        assert(render_name(n)[0] == 34);
    }
}

proof fn lemma_render_qobj_first(t: QTree)
    requires
        t.wf(),
    ensures
        render_qobj(t).len() >= 1,
        is_alnum(render_qobj(t)[0]) || render_qobj(t)[0] == 34,
        !is_ms(render_qobj(t)[0]),
{
    lemma_render_name_first(t.name);
    assert(render_qobj(t)[0] == render_name(t.name)[0]);
}

proof fn lemma_parse_qobj_stop(r: Seq<u8>)
    requires
        r.len() >= 1,
        !is_ms(r[0]),
        !is_alnum(r[0]),
        r[0] != 34,
    ensures
        spec_parse_qobj(r) is None,
        spec_parse_qobj_list(r) == (Seq::<QTree>::empty(), r),
{
    lemma_skip_ms_nows(r);
    assert(alnum_len(r) == 0);
    assert(spec_parse_name(r) is None);
}

#[verifier::rlimit(60)]
proof fn lemma_parse_qobj_render(t: QTree, rest: Seq<u8>)
    requires
        t.wf(),
        sep_ok(rest),
    ensures
        spec_parse_qobj(render_qobj(t) + rest) == Option::Some((t, strip_sep(rest))),
    decreases t, 1nat, 0nat,
{
    let an = render_name(t.name);
    let bp = render_params(t.params);
    let cc: Seq<u8> = match t.attrs {
        Option::None => Seq::empty(),
        Option::Some(l) => seq![123u8] + render_qlist(l, 0) + seq![125u8],
    };
    let s = render_qobj(t) + rest;
    let r1 = bp + (cc + rest);
    assert(s =~= an + r1);
    lemma_render_name_first(t.name);
    assert(s[0] == an[0]);
    assert(!is_ms(s[0]));
    lemma_skip_ms_nows(s);
    // the first byte after the name is never alphanumeric
    if t.params is Some {
        let ps = t.params->Some_0;
        assert(bp =~= seq![40u8] + render_items(ps, 0) + seq![41u8]);
        assert(r1[0] == 40);
    } else {
        assert(bp =~= Seq::<u8>::empty());
        assert(r1 =~= cc + rest);
        if t.attrs is Some {
            assert(cc[0] == 123);
            assert(r1[0] == 123);
        } else {
            assert(r1 =~= rest);
        }
    }
    assert(r1.len() >= 1);
    assert(!is_alnum(r1[0]));
    lemma_parse_name_render(t.name, r1);
    assert(spec_parse_name(s) == Option::Some((t.name, r1)));
    // the parameter list
    let s4: Seq<u8> = if t.params is Some {
        cc + rest
    } else {
        skip_sp(r1)
    };
    if t.params is Some {
        let ps = t.params->Some_0;
        assert(!is_sp(r1[0]));
        lemma_skip_sp_nosp(r1);
        assert(r1 =~= bp + (cc + rest));
        lemma_params_render_some(ps, cc + rest);
        assert(spec_parse_params(r1) == Option::Some((ps, cc + rest)));
    } else {
        if t.attrs is Some {
            assert(!is_sp(r1[0]));
            lemma_skip_sp_nosp(r1);
            assert(s4 =~= cc + rest);
            assert(s4[0] == 123);
            assert(spec_parse_params(s4) is None);
        } else {
            assert(r1 =~= rest);
            if rest[0] == 32 {
                assert(rest.skip(1)[0] == rest[1]);
                assert(!is_sp(rest[1]));
                lemma_skip_sp_one(rest);
                assert(s4 =~= rest.skip(1));
                assert(s4[0] != 40);
            } else {
                lemma_skip_sp_nosp(rest);
                assert(s4 =~= rest);
                assert(s4[0] != 40);
            }
            assert(spec_parse_params(s4) is None);
        }
    }
    // the child list
    match t.attrs {
        Option::Some(ats) => {
            assert(s4 =~= cc + rest);
            assert(s4[0] == 123);
            assert(!is_sp(s4[0]));
            lemma_skip_sp_nosp(s4);
            assert(s4.len() <= s.len());
            assert(cc =~= seq![123u8] + render_qlist(ats, 0) + seq![125u8]);
            assert(s4.skip(1) =~= render_qlist(ats, 0) + (seq![125u8] + rest));
            lemma_parse_qlist_render(ats, 0, seq![125u8] + rest);
            assert(ats.skip(0) =~= ats);
            let rq = seq![125u8] + rest;
            assert(rq[0] == 125);
            assert(rq.skip(1) =~= rest);
            if rest[0] == 32 {
                lemma_skip_ms_one(rest);
            } else {
                lemma_skip_ms_nows(rest);
            }
            assert(spec_parse_qobj(s) == Option::Some(
                (QTree { name: t.name, params: t.params, attrs: Option::Some(ats) }, strip_sep(rest)),
            ));
            assert(QTree { name: t.name, params: t.params, attrs: Option::Some(ats) } == t);
        },
        Option::None => {
            let s5 = skip_sp(s4);
            if t.params is Some {
                assert(s4 =~= rest);
                if rest[0] == 32 {
                    assert(rest.skip(1)[0] == rest[1]);
                    assert(!is_sp(rest[1]));
                    lemma_skip_sp_one(rest);
                    assert(s5 =~= rest.skip(1));
                } else {
                    lemma_skip_sp_nosp(rest);
                    assert(s5 =~= rest);
                }
            } else {
                if rest[0] == 32 {
                    assert(s4 =~= rest.skip(1));
                    assert(s4.len() == 0 || !is_sp(s4[0]));
                    lemma_skip_sp_nosp(s4);
                    assert(s5 =~= rest.skip(1));
                } else {
                    assert(s4 =~= rest);
                    lemma_skip_sp_nosp(rest);
                    assert(s5 =~= rest);
                }
            }
            assert(s5 =~= strip_sep(rest));
            assert(s5.len() >= 1 ==> s5[0] != 123);
            assert(s5.len() == 0 || !is_ms(s5[0]));
            lemma_skip_ms_nows(s5);
            assert(spec_parse_qobj(s) == Option::Some(
                (QTree { name: t.name, params: t.params, attrs: Option::None }, s5),
            ));
            assert(QTree { name: t.name, params: t.params, attrs: Option::None } == t);
        },
    }
}

#[verifier::rlimit(60)]
proof fn lemma_parse_qlist_render(l: Seq<QTree>, i: int, rest: Seq<u8>)
    requires
        qtrees_wf(l),
        0 <= i <= l.len(),
        rest.len() >= 1,
        rest[0] == 125,
    ensures
        spec_parse_qobj_list(render_qlist(l, i) + rest) == (l.skip(i), rest),
    decreases l, 0nat, l.len() - i,
{
    let s = render_qlist(l, i) + rest;
    if i >= l.len() {
        assert(s =~= rest);
        lemma_parse_qobj_stop(rest);
        assert(l.skip(i) =~= Seq::<QTree>::empty());
    } else {
        crate::ast::lemma_qtrees_wf_index(l, i);
        lemma_render_qobj_first(l[i]);
        if i + 1 >= l.len() {
            assert(s =~= render_qobj(l[i]) + rest);
            lemma_parse_qobj_render(l[i], rest);
            assert(strip_sep(rest) =~= rest);
            assert(rest.len() < s.len());
            lemma_parse_qobj_stop(rest);
            assert(seq![l[i]] + Seq::<QTree>::empty() =~= l.skip(i));
        } else {
            let rest3 = render_qlist(l, i + 1) + rest;
            let rest2 = seq![32u8] + rest3;
            assert(s =~= render_qobj(l[i]) + rest2);
            crate::ast::lemma_qtrees_wf_index(l, i + 1);
            lemma_render_qobj_first(l[i + 1]);
            assert(render_qlist(l, i + 1)[0] == render_qobj(l[i + 1])[0]);
            assert(rest3[0] == render_qobj(l[i + 1])[0]);
            assert(rest2[0] == 32 && rest2[1] == rest3[0]);
            assert(sep_ok(rest2));
            lemma_parse_qobj_render(l[i], rest2);
            assert(rest2.skip(1) =~= rest3);
            assert(strip_sep(rest2) =~= rest3);
            assert(rest3.len() < s.len());
            lemma_parse_qlist_render(l, i + 1, rest);
            assert(seq![l[i]] + l.skip(i + 1) =~= l.skip(i));
        }
    }
}

/// Parsing the canonical rendering of a well-formed query tree yields
/// that tree again.
pub proof fn lemma_render_query_parses(t: QTree)
    requires
        t.wf(),
    ensures
        spec_parse_query(render_query(t)) == Option::Some(t),
{
    let s = render_query(t);
    assert(s =~= seq![123u8] + (render_qobj(t) + seq![125u8]));
    assert(s[0] == 123);
    assert(!is_ms(s[0]));
    lemma_skip_ms_nows(s);
    assert(s.skip(1) =~= render_qobj(t) + seq![125u8]);
    assert(sep_ok(seq![125u8]));
    lemma_parse_qobj_render(t, seq![125u8]);
    assert(strip_sep(seq![125u8]) =~= seq![125u8]);
    let rq = seq![125u8];
    assert(rq[0] == 125);
    assert(rq.skip(1) =~= Seq::<u8>::empty());
    lemma_skip_ms_nows(Seq::<u8>::empty());
}


// ---------------------------------------------------------------------
// Every parsed tree is well formed
// ---------------------------------------------------------------------
proof fn lemma_alnum_prefix(s: Seq<u8>)
    ensures
        alnum_len(s) <= s.len(),
        forall|i: int| 0 <= i < alnum_len(s) ==> is_alnum(#[trigger] s[i]),
    decreases s.len(),
{
    if s.len() > 0 && is_alnum(s[0]) {
        lemma_alnum_prefix(s.drop_first());
        assert forall|i: int| 0 <= i < alnum_len(s) implies is_alnum(#[trigger] s[i]) by {
            if i > 0 {
                assert(s.drop_first()[i - 1] == s[i]);
            }
        }
    }
}

proof fn lemma_quote_prefix(s: Seq<u8>)
    ensures
        until_quote_len(s) <= s.len(),
        forall|i: int| 0 <= i < until_quote_len(s) ==> #[trigger] s[i] != 34,
    decreases s.len(),
{
    if s.len() > 0 && s[0] != 34 {
        lemma_quote_prefix(s.drop_first());
        assert forall|i: int| 0 <= i < until_quote_len(s) implies #[trigger] s[i] != 34 by {
            if i > 0 {
                assert(s.drop_first()[i - 1] == s[i]);
            }
        }
    }
}

proof fn lemma_parse_name_wf(s: Seq<u8>)
    requires
        spec_parse_name(s) is Some,
    ensures
        name_ok(spec_parse_name(s)->Some_0.0),
{
    if spec_parse_alnum(s) is Some {
        lemma_alnum_prefix(s);
        let n = alnum_len(s) as int;
        assert forall|i: int| 0 <= i < s.take(n).len() implies #[trigger] s.take(n)[i] != 34 by {
            assert(s.take(n)[i] == s[i]);
            assert(is_alnum(s[i]));
        }
    } else {
        lemma_quote_prefix(s.skip(1));
        let n = until_quote_len(s.skip(1)) as int;
        assert forall|i: int| 0 <= i < s.subrange(1, 1 + n).len() implies #[trigger] s.subrange(
            1,
            1 + n,
        )[i] != 34 by {
            assert(s.subrange(1, 1 + n)[i] == s.skip(1)[i]);
        }
    }
}

proof fn lemma_parse_word_wf(s: Seq<u8>)
    requires
        spec_parse_word(s) is Some,
    ensures
        bare_ok(spec_parse_word(s)->Some_0.0),
{
    if spec_parse_alnum(s) is Some {
        lemma_alnum_prefix(s);
        let n = alnum_len(s) as int;
        assert forall|i: int| 0 <= i < s.take(n).len() implies is_alnum(#[trigger] s.take(n)[i])
            by {
            assert(s.take(n)[i] == s[i]);
        }
    } else {
        lemma_alnum_prefix(s.skip(1));
        let n = alnum_len(s.skip(1)) as int;
        assert forall|i: int| 0 <= i < s.subrange(1, 1 + n).len() implies is_alnum(
            #[trigger] s.subrange(1, 1 + n)[i],
        ) by {
            assert(s.subrange(1, 1 + n)[i] == s.skip(1)[i]);
        }
    }
}

proof fn lemma_parse_params_list_wf(s: Seq<u8>)
    ensures
        params_ok(spec_parse_params_list(s).0),
    decreases s.len(),
{
    let s1 = skip_ms(s);
    if s1.len() <= s.len() {
        match spec_parse_param(s1) {
            Option::None => {},
            Option::Some((p, r)) => {
                lemma_parse_word_wf(s1);
                let r2 = skip_sp(spec_parse_word(s1)->Some_0.1);
                lemma_parse_word_wf(skip_sp(r2.skip(1)));
                if r.len() < s.len() {
                    lemma_parse_params_list_wf(r);
                    let l2 = spec_parse_params_list(r).0;
                    assert forall|i: int| 0 <= i < (seq![p] + l2).len() implies bare_ok(
                        #[trigger] (seq![p] + l2)[i].0,
                    ) && bare_ok((seq![p] + l2)[i].1) by {
                        if i > 0 {
                            assert((seq![p] + l2)[i] == l2[i - 1]);
                        }
                    }
                } else {
                    assert forall|i: int| 0 <= i < seq![p].len() implies bare_ok(
                        #[trigger] seq![p][i].0,
                    ) && bare_ok(seq![p][i].1) by {}
                }
            },
        }
    }
}

proof fn lemma_parse_qobj_wf(s: Seq<u8>)
    requires
        spec_parse_qobj(s) is Some,
    ensures
        spec_parse_qobj(s)->Some_0.0.wf(),
    decreases s.len(), 0nat,
{
    let s1 = skip_ms(s);
    lemma_parse_name_wf(s1);
    let s2 = spec_parse_name(s1)->Some_0.1;
    let s3 = skip_sp(s2);
    if spec_parse_params(s3) is Some {
        if s3.len() > 0 && s3[0] == 40 {
            lemma_parse_params_list_wf(s3.skip(1));
        }
    }
    let s4: Seq<u8> = match spec_parse_params(s3) {
        Option::None => s3,
        Option::Some((_l, r)) => r,
    };
    let s5 = skip_sp(s4);
    if s5.len() > 0 && s5[0] == 123 && s5.len() <= s.len() {
        lemma_parse_qlist_wf(s5.skip(1));
    }
}

proof fn lemma_parse_qlist_wf(s: Seq<u8>)
    ensures
        qtrees_wf(spec_parse_qobj_list(s).0),
    decreases s.len(), 1nat,
{
    match spec_parse_qobj(s) {
        Option::None => {},
        Option::Some((t, r)) => {
            lemma_parse_qobj_wf(s);
            if r.len() < s.len() {
                lemma_parse_qlist_wf(r);
                let l2 = spec_parse_qobj_list(r).0;
                assert((seq![t] + l2).len() == 1 + l2.len());
                assert((seq![t] + l2)[0] == t);
                assert((seq![t] + l2).drop_first() =~= l2);
                assert(qtrees_wf((seq![t] + l2).drop_first()));
                assert(qtrees_wf(seq![t] + l2));
            } else {
                assert(seq![t][0] == t);
                assert((seq![t]).drop_first() =~= Seq::<QTree>::empty());
                assert(qtrees_wf(Seq::<QTree>::empty()));
                assert(qtrees_wf(seq![t]));
            }
        },
    }
}

/// Every tree a successful query parse yields is well formed.
pub proof fn lemma_parse_query_wf(s: Seq<u8>)
    requires
        spec_parse_query(s) is Some,
    ensures
        spec_parse_query(s)->Some_0.wf(),
{
    let s1 = skip_ms(s);
    lemma_parse_qobj_wf(s1.skip(1));
}

// ---------------------------------------------------------------------
// The round-trip laws
// ---------------------------------------------------------------------
/// Parsing a query, rendering its tree to canonical text and parsing
/// again yields the identical tree: the parse-render round trip is
/// idempotent on every grammar-conformant input.
pub proof fn lemma_query_round_trip(s: Seq<u8>)
    requires
        spec_parse_query(s) is Some,
    ensures
        spec_parse_query(render_query(spec_parse_query(s)->Some_0)) == spec_parse_query(s),
{
    lemma_parse_query_wf(s);
    lemma_render_query_parses(spec_parse_query(s)->Some_0);
}

/// Absent and empty child lists stay distinguishable: two well-formed
/// trees that agree everywhere but where one has no child list and the
/// other an empty one render to different canonical texts, and those
/// texts parse back to the two distinct trees.
pub proof fn lemma_attrs_none_vs_empty(t1: QTree, t2: QTree)
    requires
        t1.wf(),
        t2.wf(),
        t1.attrs is None,
        t2.attrs is Some,
    ensures
        render_query(t1) != render_query(t2),
        spec_parse_query(render_query(t1)) != spec_parse_query(render_query(t2)),
{
    lemma_render_query_parses(t1);
    lemma_render_query_parses(t2);
}


// ---------------------------------------------------------------------
// Round trip, mutation objects
// ---------------------------------------------------------------------
use crate::ast::mtrees_wf;
use crate::parser::spec_parse_mobj;
use crate::parser::spec_parse_mobj_list;
use crate::parser::spec_parse_mutation;
use crate::parser::spec_parse_mval;

proof fn lemma_render_mobj_first(t: MTree)
    requires
        t.wf(),
    ensures
        render_mobj(t).len() >= 1,
        is_alnum(render_mobj(t)[0]) || render_mobj(t)[0] == 34,
        !is_ms(render_mobj(t)[0]),
{
    lemma_render_name_first(t.name);
    assert(render_mobj(t)[0] == render_name(t.name)[0]);
}

proof fn lemma_parse_mobj_stop(r: Seq<u8>)
    requires
        r.len() >= 1,
        !is_ms(r[0]),
        !is_alnum(r[0]),
        r[0] != 34,
    ensures
        spec_parse_mobj(r) is None,
        spec_parse_mobj_list(r) == (Seq::<MTree>::empty(), r),
{
    lemma_skip_ms_nows(r);
    assert(alnum_len(r) == 0);
    assert(spec_parse_name(r) is None);
}

#[verifier::rlimit(60)]
proof fn lemma_parse_mobj_render(t: MTree, rest: Seq<u8>)
    requires
        t.wf(),
        sep_ok(rest),
    ensures
        spec_parse_mobj(render_mobj(t) + rest) == Option::Some((t, strip_sep(rest))),
    decreases t, 1nat, 0nat,
{
    let an = render_name(t.name);
    let vv = render_mval(t.value);
    let bp = render_params(t.params);
    let cc: Seq<u8> = match t.attrs {
        Option::None => Seq::empty(),
        Option::Some(l) => seq![123u8] + render_mlist(l, 0) + seq![125u8],
    };
    let s = render_mobj(t) + rest;
    let r1 = vv + (bp + (cc + rest));
    assert(s =~= an + r1);
    lemma_render_name_first(t.name);
    assert(s[0] == an[0]);
    assert(!is_ms(s[0]));
    lemma_skip_ms_nows(s);
    // the first byte after the name is never alphanumeric
    if t.value is Some {
        assert(vv =~= seq![58u8] + render_name(t.value->Some_0));
        assert(r1[0] == 58);
    } else {
        assert(vv =~= Seq::<u8>::empty());
        assert(r1 =~= bp + (cc + rest));
        if t.params is Some {
            let ps = t.params->Some_0;
            assert(bp =~= seq![40u8] + render_items(ps, 0) + seq![41u8]);
            assert(r1[0] == 40);
        } else {
            assert(bp =~= Seq::<u8>::empty());
            assert(r1 =~= cc + rest);
            if t.attrs is Some {
                assert(cc[0] == 123);
                assert(r1[0] == 123);
            } else {
                assert(r1 =~= rest);
            }
        }
    }
    assert(r1.len() >= 1);
    assert(!is_alnum(r1[0]));
    lemma_parse_name_render(t.name, r1);
    assert(spec_parse_name(s) == Option::Some((t.name, r1)));
    // the scalar value
    let s3: Seq<u8> = if t.value is None && t.params is None && t.attrs is None && rest[0] == 32 {
        rest.skip(1)
    } else {
        r1
    };
    if t.value is None && t.params is None && t.attrs is None && rest[0] == 32 {
        assert(r1 =~= rest);
        assert(rest.skip(1)[0] == rest[1]);
        assert(!is_sp(rest[1]));
        lemma_skip_sp_one(rest);
        assert(skip_sp(r1) == s3);
    } else {
        assert(!is_sp(r1[0]));
        lemma_skip_sp_nosp(r1);
        assert(skip_sp(r1) == s3);
    }
    let s4: Seq<u8> = if t.value is Some {
        bp + (cc + rest)
    } else {
        s3
    };
    if t.value is Some {
        let v = t.value->Some_0;
        assert(s3 == r1);
        assert(s3[0] == 58);
        assert(s3.skip(1) =~= render_name(v) + (bp + (cc + rest)));
        lemma_render_name_first(v);
        assert(!is_sp(s3.skip(1)[0]));
        lemma_skip_sp_nosp(s3.skip(1));
        let r2 = bp + (cc + rest);
        if bare_ok(v) {
            if t.params is Some {
                let ps = t.params->Some_0;
                assert(bp =~= seq![40u8] + render_items(ps, 0) + seq![41u8]);
                assert(r2[0] == 40);
            } else if t.attrs is Some {
                assert(bp =~= Seq::<u8>::empty());
                assert(cc[0] == 123);
                assert(r2 =~= cc + rest);
                assert(r2[0] == 123);
            } else {
                assert(r2 =~= rest);
            }
            assert(r2.len() >= 1 && !is_alnum(r2[0]));
        }
        lemma_parse_name_render(v, r2);
        assert(spec_parse_mval(s3) == Option::Some((v, r2)));
    } else {
        assert(s3.len() >= 1);
        if t.params is Some {
            let ps = t.params->Some_0;
            assert(bp =~= seq![40u8] + render_items(ps, 0) + seq![41u8]);
            assert(s3[0] == 40);
        } else if t.attrs is Some {
            assert(s3 =~= cc + rest);
            assert(s3[0] == 123);
        } else {
            assert(s3[0] == 125 || (is_alnum(s3[0]) || s3[0] == 34 || s3[0] == 125));
        }
        assert(s3[0] != 58);
        assert(spec_parse_mval(s3) is None);
        assert(s4 == s3);
    }
    // the parameter list
    let s5: Seq<u8> = if t.params is Some {
        cc + rest
    } else {
        s4
    };
    if t.params is Some {
        let ps = t.params->Some_0;
        assert(s4 =~= bp + (cc + rest));
        lemma_params_render_some(ps, cc + rest);
        assert(spec_parse_params(s4) == Option::Some((ps, cc + rest)));
    } else {
        if t.attrs is Some {
            assert(s4 =~= cc + rest);
            assert(s4[0] == 123);
            assert(s4[0] != 40);
        } else {
            if t.value is Some {
                assert(s4 =~= rest);
                assert(s4[0] != 40);
            } else {
                assert(s4 == s3);
                assert(s4 =~= strip_sep(rest));
                assert(s4.len() >= 1 && s4[0] != 40);
            }
        }
        assert(spec_parse_params(s4) is None);
        assert(s5 == s4);
    }
    // the child list
    match t.attrs {
        Option::Some(ats) => {
            assert(s5 =~= cc + rest);
            assert(s5[0] == 123);
            assert(!is_sp(s5[0]));
            lemma_skip_sp_nosp(s5);
            assert(s5.len() <= s.len());
            assert(cc =~= seq![123u8] + render_mlist(ats, 0) + seq![125u8]);
            assert(s5.skip(1) =~= render_mlist(ats, 0) + (seq![125u8] + rest));
            lemma_parse_mlist_render(ats, 0, seq![125u8] + rest);
            assert(ats.skip(0) =~= ats);
            let rq = seq![125u8] + rest;
            assert(rq[0] == 125);
            assert(rq.skip(1) =~= rest);
            if rest[0] == 32 {
                lemma_skip_ms_one(rest);
            } else {
                lemma_skip_ms_nows(rest);
            }
            assert(spec_parse_mobj(s) == Option::Some(
                (
                    MTree {
                        name: t.name,
                        value: t.value,
                        params: t.params,
                        attrs: Option::Some(ats),
                    },
                    strip_sep(rest),
                ),
            ));
            assert(MTree { name: t.name, value: t.value, params: t.params, attrs: Option::Some(ats) }
                == t);
        },
        Option::None => {
            let s6 = skip_sp(s5);
            if t.value is None && t.params is None {
                assert(s5 == s3);
                assert(s5 =~= strip_sep(rest));
                assert(s5.len() == 0 || !is_sp(s5[0]));
                lemma_skip_sp_nosp(s5);
                assert(s6 =~= strip_sep(rest));
            } else {
                assert(s5 =~= rest);
                if rest[0] == 32 {
                    assert(rest.skip(1)[0] == rest[1]);
                    assert(!is_sp(rest[1]));
                    lemma_skip_sp_one(rest);
                    assert(s6 =~= rest.skip(1));
                } else {
                    lemma_skip_sp_nosp(rest);
                    assert(s6 =~= rest);
                }
            }
            assert(s6 =~= strip_sep(rest));
            assert(s6.len() >= 1 ==> s6[0] != 123);
            assert(s6.len() == 0 || !is_ms(s6[0]));
            lemma_skip_ms_nows(s6);
            assert(spec_parse_mobj(s) == Option::Some(
                (
                    MTree { name: t.name, value: t.value, params: t.params, attrs: Option::None },
                    s6,
                ),
            ));
            assert(MTree { name: t.name, value: t.value, params: t.params, attrs: Option::None }
                == t);
        },
    }
}

#[verifier::rlimit(60)]
proof fn lemma_parse_mlist_render(l: Seq<MTree>, i: int, rest: Seq<u8>)
    requires
        mtrees_wf(l),
        0 <= i <= l.len(),
        rest.len() >= 1,
        rest[0] == 125,
    ensures
        spec_parse_mobj_list(render_mlist(l, i) + rest) == (l.skip(i), rest),
    decreases l, 0nat, l.len() - i,
{
    let s = render_mlist(l, i) + rest;
    if i >= l.len() {
        assert(s =~= rest);
        lemma_parse_mobj_stop(rest);
        assert(l.skip(i) =~= Seq::<MTree>::empty());
    } else {
        crate::ast::lemma_mtrees_wf_index(l, i);
        lemma_render_mobj_first(l[i]);
        if i + 1 >= l.len() {
            assert(s =~= render_mobj(l[i]) + rest);
            lemma_parse_mobj_render(l[i], rest);
            assert(strip_sep(rest) =~= rest);
            assert(rest.len() < s.len());
            lemma_parse_mobj_stop(rest);
            assert(seq![l[i]] + Seq::<MTree>::empty() =~= l.skip(i));
        } else {
            let rest3 = render_mlist(l, i + 1) + rest;
            let rest2 = seq![32u8] + rest3;
            assert(s =~= render_mobj(l[i]) + rest2);
            crate::ast::lemma_mtrees_wf_index(l, i + 1);
            lemma_render_mobj_first(l[i + 1]);
            assert(render_mlist(l, i + 1)[0] == render_mobj(l[i + 1])[0]);
            assert(rest3[0] == render_mobj(l[i + 1])[0]);
            assert(rest2[0] == 32 && rest2[1] == rest3[0]);
            assert(sep_ok(rest2));
            lemma_parse_mobj_render(l[i], rest2);
            assert(rest2.skip(1) =~= rest3);
            assert(strip_sep(rest2) =~= rest3);
            assert(rest3.len() < s.len());
            lemma_parse_mlist_render(l, i + 1, rest);
            assert(seq![l[i]] + l.skip(i + 1) =~= l.skip(i));
        }
    }
}

/// Parsing the canonical rendering of a well-formed mutation tree yields
/// that tree again.
pub proof fn lemma_render_mutation_parses(t: MTree)
    requires
        t.wf(),
    ensures
        spec_parse_mutation(render_mutation(t)) == Option::Some(t),
{
    let s = render_mutation(t);
    assert(s =~= seq![123u8] + (render_mobj(t) + seq![125u8]));
    assert(s[0] == 123);
    assert(!is_ms(s[0]));
    lemma_skip_ms_nows(s);
    assert(s.skip(1) =~= render_mobj(t) + seq![125u8]);
    assert(sep_ok(seq![125u8]));
    lemma_parse_mobj_render(t, seq![125u8]);
    assert(strip_sep(seq![125u8]) =~= seq![125u8]);
    let rq = seq![125u8];
    assert(rq[0] == 125);
    assert(rq.skip(1) =~= Seq::<u8>::empty());
    lemma_skip_ms_nows(Seq::<u8>::empty());
}

proof fn lemma_parse_mobj_wf(s: Seq<u8>)
    requires
        spec_parse_mobj(s) is Some,
    ensures
        spec_parse_mobj(s)->Some_0.0.wf(),
    decreases s.len(), 0nat,
{
    let s1 = skip_ms(s);
    lemma_parse_name_wf(s1);
    let s2 = spec_parse_name(s1)->Some_0.1;
    let s3 = skip_sp(s2);
    if spec_parse_mval(s3) is Some {
        lemma_parse_name_wf(skip_sp(s3.skip(1)));
    }
    let s4: Seq<u8> = match spec_parse_mval(s3) {
        Option::None => s3,
        Option::Some((_v, r)) => r,
    };
    if spec_parse_params(s4) is Some {
        if s4.len() > 0 && s4[0] == 40 {
            lemma_parse_params_list_wf(s4.skip(1));
        }
    }
    let s5: Seq<u8> = match spec_parse_params(s4) {
        Option::None => s4,
        Option::Some((_l, r)) => r,
    };
    let s6 = skip_sp(s5);
    if s6.len() > 0 && s6[0] == 123 && s6.len() <= s.len() {
        lemma_parse_mlist_wf(s6.skip(1));
    }
}

proof fn lemma_parse_mlist_wf(s: Seq<u8>)
    ensures
        mtrees_wf(spec_parse_mobj_list(s).0),
    decreases s.len(), 1nat,
{
    match spec_parse_mobj(s) {
        Option::None => {},
        Option::Some((t, r)) => {
            lemma_parse_mobj_wf(s);
            if r.len() < s.len() {
                lemma_parse_mlist_wf(r);
                let l2 = spec_parse_mobj_list(r).0;
                assert((seq![t] + l2).len() == 1 + l2.len());
                assert((seq![t] + l2)[0] == t);
                assert((seq![t] + l2).drop_first() =~= l2);
                assert(mtrees_wf((seq![t] + l2).drop_first()));
                assert(mtrees_wf(seq![t] + l2));
            } else {
                assert(seq![t][0] == t);
                assert((seq![t]).drop_first() =~= Seq::<MTree>::empty());
                assert(mtrees_wf(Seq::<MTree>::empty()));
                assert(mtrees_wf(seq![t]));
            }
        },
    }
}

/// Every tree a successful mutation parse yields is well formed.
pub proof fn lemma_parse_mutation_wf(s: Seq<u8>)
    requires
        spec_parse_mutation(s) is Some,
    ensures
        spec_parse_mutation(s)->Some_0.wf(),
{
    let s1 = skip_ms(s);
    lemma_parse_mobj_wf(s1.skip(1));
}

/// Parsing a mutation, rendering its tree to canonical text and parsing
/// again yields the identical tree.
pub proof fn lemma_mutation_round_trip(s: Seq<u8>)
    requires
        spec_parse_mutation(s) is Some,
    ensures
        spec_parse_mutation(render_mutation(spec_parse_mutation(s)->Some_0))
            == spec_parse_mutation(s),
{
    lemma_parse_mutation_wf(s);
    lemma_render_mutation_parses(spec_parse_mutation(s)->Some_0);
}

} // verus!
