//! Translator: maps syntax trees to parameterized SQL text, renders
//! backend result rows back into response text, and produces the one-time
//! schema bootstrap statements.

use vstd::prelude::*;

use crate::ast::MTree;
use crate::ast::MutationObject;
use crate::ast::QTree;
use crate::ast::QueryObject;
use crate::parser::FieldDef;
use crate::parser::ObjectDef;
use crate::parser::fields_view;

verus! {

/// The working database name and its table definitions, created once at
/// gateway construction and read-only afterwards.
#[derive(Clone, PartialEq, Eq, Debug)]
pub struct Schema {
    pub database: Vec<u8>,
    pub tables: Vec<ObjectDef>,
}

/// Why a syntax tree could not be translated.
#[derive(Clone, Copy, PartialEq, Eq, Structural, Debug)]
pub enum TranslationError {
    UnknownTable,
    UnknownColumn,
    InvalidShape,
}

/// The columns of the named table, or `None` when the schema has no such
/// table; the first declaration wins.
pub open spec fn table_fields(ts: Seq<ObjectDef>, name: Seq<u8>) -> Option<
    Seq<(Seq<u8>, Seq<u8>, bool)>,
>
    decreases ts.len(),
{
    if ts.len() == 0 {
        Option::None
    } else if ts[0].0@ == name {
        Option::Some(fields_view(ts[0].1@))
    } else {
        table_fields(ts.drop_first(), name)
    }
}

/// Whether the column list holds a column of the given name.
pub open spec fn has_col_v(cols: Seq<(Seq<u8>, Seq<u8>, bool)>, name: Seq<u8>) -> bool
    decreases cols.len(),
{
    if cols.len() == 0 {
        false
    } else {
        cols[0].0 == name || has_col_v(cols.drop_first(), name)
    }
}

/// View of a statement list.
pub open spec fn stmts_view(v: Seq<Vec<u8>>) -> Seq<Seq<u8>> {
    v.map_values(|x: Vec<u8>| x@)
}

fn vec_eq(a: &Vec<u8>, b: &Vec<u8>) -> (r: bool)
    ensures
        r == (a@ == b@),
{
    if a.len() != b.len() {
        proof {
            assert(a@.len() != b@.len());
        }
        return false;
    }
    let mut i: usize = 0;
    while i < a.len()
        invariant
            i <= a.len(),
            a.len() == b.len(),
            forall|j: int| 0 <= j < i ==> a@[j] == b@[j],
        decreases a.len() - i,
    {
        if a[i] != b[i] {
            return false;
        }
        i = i + 1;
    }
    proof {
        assert(a@ =~= b@);
    }
    true
}

fn has_col(cols: &Vec<FieldDef>, name: &Vec<u8>) -> (r: bool)
    ensures
        r == has_col_v(fields_view(cols@), name@),
    decreases cols.len(),
{
    proof {
        assert(fields_view(cols@).skip(0) =~= fields_view(cols@));
    }
    let mut i: usize = 0;
    while i < cols.len()
        invariant
            i <= cols.len(),
            has_col_v(fields_view(cols@), name@) == has_col_v(
                fields_view(cols@).skip(i as int),
                name@,
            ),
        decreases cols.len() - i,
    {
        proof {
            assert(fields_view(cols@).skip(i as int)[0] == (cols@[i as int].0@,
                cols@[i as int].1@, cols@[i as int].2));
            assert(fields_view(cols@).skip(i as int).drop_first() =~= fields_view(cols@).skip(
                i as int + 1));
        }
        if vec_eq(&cols[i].0, name) {
            return true;
        }
        i = i + 1;
    }
    proof {
        assert(fields_view(cols@).skip(cols@.len() as int).len() == 0);
    }
    false
}

/// Index of the named table in the schema, or `None`.
fn find_table(tables: &Vec<ObjectDef>, name: &Vec<u8>) -> (r: Option<usize>)
    ensures
        (match r {
            Option::Some(i) => i < tables.len() && table_fields(tables@, name@) == Option::Some(
                fields_view(tables@[i as int].1@),
            ),
            Option::None => table_fields(tables@, name@) is None,
        }),
{
    proof {
        assert(tables@.skip(0) =~= tables@);
    }
    let mut i: usize = 0;
    while i < tables.len()
        invariant
            i <= tables.len(),
            table_fields(tables@, name@) == table_fields(tables@.skip(i as int), name@),
            forall|j: int| 0 <= j < i ==> tables@[j].0@ != name@,
        decreases tables.len() - i,
    {
        proof {
            assert(tables@.skip(i as int)[0] == tables@[i as int]);
            assert(tables@.skip(i as int).drop_first() =~= tables@.skip(i as int + 1));
        }
        if vec_eq(&tables[i].0, name) {
            return Option::Some(i);
        }
        i = i + 1;
    }
    proof {
        assert(tables@.skip(tables@.len() as int).len() == 0);
    }
    Option::None
}

fn append_vec(out: &mut Vec<u8>, xs: Vec<u8>)
    ensures
        final(out)@ == old(out)@ + xs@,
{
    let mut xs = xs;
    out.append(&mut xs);
}

/// Spec bytes of the SQL text `'SELECT'`.
pub open spec fn kws_select() -> Seq<u8> {
    seq![83u8, 69u8, 76u8, 69u8, 67u8, 84u8, 32u8]
}

fn kw_select() -> (r: Vec<u8>)
    ensures
        r@ == kws_select(),
{
    let mut v: Vec<u8> = Vec::new();
    v.push(83);
    v.push(69);
    v.push(76);
    v.push(69);
    v.push(67);
    v.push(84);
    v.push(32);
    proof {
        assert(v@ =~= kws_select());
    }
    v
}

/// Spec bytes of the SQL text `'FROM'`.
pub open spec fn kws_from() -> Seq<u8> {
    seq![32u8, 70u8, 82u8, 79u8, 77u8, 32u8]
}

fn kw_from() -> (r: Vec<u8>)
    ensures
        r@ == kws_from(),
{
    let mut v: Vec<u8> = Vec::new();
    v.push(32);
    v.push(70);
    v.push(82);
    v.push(79);
    v.push(77);
    v.push(32);
    proof {
        assert(v@ =~= kws_from());
    }
    v
}

/// Spec bytes of the SQL text `'WHERE'`.
pub open spec fn kws_where() -> Seq<u8> {
    seq![32u8, 87u8, 72u8, 69u8, 82u8, 69u8, 32u8]
}

fn kw_where() -> (r: Vec<u8>)
    ensures
        r@ == kws_where(),
{
    let mut v: Vec<u8> = Vec::new();
    v.push(32);
    v.push(87);
    v.push(72);
    v.push(69);
    v.push(82);
    v.push(69);
    v.push(32);
    proof {
        assert(v@ =~= kws_where());
    }
    v
}

/// Spec bytes of the SQL text `'AND'`.
pub open spec fn kws_and_sep() -> Seq<u8> {
    seq![32u8, 65u8, 78u8, 68u8, 32u8]
}

fn kw_and_sep() -> (r: Vec<u8>)
    ensures
        r@ == kws_and_sep(),
{
    let mut v: Vec<u8> = Vec::new();
    v.push(32);
    v.push(65);
    v.push(78);
    v.push(68);
    v.push(32);
    proof {
        assert(v@ =~= kws_and_sep());
    }
    v
}

/// Spec bytes of the SQL text `','`.
pub open spec fn kws_comma_sep() -> Seq<u8> {
    seq![44u8, 32u8]
}

fn kw_comma_sep() -> (r: Vec<u8>)
    ensures
        r@ == kws_comma_sep(),
{
    let mut v: Vec<u8> = Vec::new();
    v.push(44);
    v.push(32);
    proof {
        assert(v@ =~= kws_comma_sep());
    }
    v
}

/// Spec bytes of the SQL text `'INSERT INTO'`.
pub open spec fn kws_insert_into() -> Seq<u8> {
    seq![73u8, 78u8, 83u8, 69u8, 82u8, 84u8, 32u8, 73u8, 78u8, 84u8, 79u8, 32u8]
}

fn kw_insert_into() -> (r: Vec<u8>)
    ensures
        r@ == kws_insert_into(),
{
    let mut v: Vec<u8> = Vec::new();
    v.push(73);
    v.push(78);
    v.push(83);
    v.push(69);
    v.push(82);
    v.push(84);
    v.push(32);
    v.push(73);
    v.push(78);
    v.push(84);
    v.push(79);
    v.push(32);
    proof {
        assert(v@ =~= kws_insert_into());
    }
    v
}

/// Spec bytes of the SQL text `') VALUES ('`.
pub open spec fn kws_values() -> Seq<u8> {
    seq![41u8, 32u8, 86u8, 65u8, 76u8, 85u8, 69u8, 83u8, 32u8, 40u8]
}

fn kw_values() -> (r: Vec<u8>)
    ensures
        r@ == kws_values(),
{
    let mut v: Vec<u8> = Vec::new();
    v.push(41);
    v.push(32);
    v.push(86);
    v.push(65);
    v.push(76);
    v.push(85);
    v.push(69);
    v.push(83);
    v.push(32);
    v.push(40);
    proof {
        assert(v@ =~= kws_values());
    }
    v
}

/// Spec bytes of the SQL text `'UPDATE'`.
pub open spec fn kws_update() -> Seq<u8> {
    seq![85u8, 80u8, 68u8, 65u8, 84u8, 69u8, 32u8]
}

fn kw_update() -> (r: Vec<u8>)
    ensures
        r@ == kws_update(),
{
    let mut v: Vec<u8> = Vec::new();
    v.push(85);
    v.push(80);
    v.push(68);
    v.push(65);
    v.push(84);
    v.push(69);
    v.push(32);
    proof {
        assert(v@ =~= kws_update());
    }
    v
}

/// Spec bytes of the SQL text `'SET'`.
pub open spec fn kws_set_kw() -> Seq<u8> {
    seq![32u8, 83u8, 69u8, 84u8, 32u8]
}

fn kw_set_kw() -> (r: Vec<u8>)
    ensures
        r@ == kws_set_kw(),
{
    let mut v: Vec<u8> = Vec::new();
    v.push(32);
    v.push(83);
    v.push(69);
    v.push(84);
    v.push(32);
    proof {
        assert(v@ =~= kws_set_kw());
    }
    v
}

/// Spec bytes of the SQL text `'DELETE FROM'`.
pub open spec fn kws_delete_from() -> Seq<u8> {
    seq![68u8, 69u8, 76u8, 69u8, 84u8, 69u8, 32u8, 70u8, 82u8, 79u8, 77u8, 32u8]
}

fn kw_delete_from() -> (r: Vec<u8>)
    ensures
        r@ == kws_delete_from(),
{
    let mut v: Vec<u8> = Vec::new();
    v.push(68);
    v.push(69);
    v.push(76);
    v.push(69);
    v.push(84);
    v.push(69);
    v.push(32);
    v.push(70);
    v.push(82);
    v.push(79);
    v.push(77);
    v.push(32);
    proof {
        assert(v@ =~= kws_delete_from());
    }
    v
}

/// Spec bytes of the SQL text `'CREATE DATABASE'`.
pub open spec fn kws_create_db() -> Seq<u8> {
    seq![67u8, 82u8, 69u8, 65u8, 84u8, 69u8, 32u8, 68u8, 65u8, 84u8, 65u8, 66u8, 65u8, 83u8, 69u8, 32u8]
}

fn kw_create_db() -> (r: Vec<u8>)
    ensures
        r@ == kws_create_db(),
{
    let mut v: Vec<u8> = Vec::new();
    v.push(67);
    v.push(82);
    v.push(69);
    v.push(65);
    v.push(84);
    v.push(69);
    v.push(32);
    v.push(68);
    v.push(65);
    v.push(84);
    v.push(65);
    v.push(66);
    v.push(65);
    v.push(83);
    v.push(69);
    v.push(32);
    proof {
        assert(v@ =~= kws_create_db());
    }
    v
}

/// Spec bytes of the SQL text `'USE'`.
pub open spec fn kws_use_db() -> Seq<u8> {
    seq![85u8, 83u8, 69u8, 32u8]
}

fn kw_use_db() -> (r: Vec<u8>)
    ensures
        r@ == kws_use_db(),
{
    let mut v: Vec<u8> = Vec::new();
    v.push(85);
    v.push(83);
    v.push(69);
    v.push(32);
    proof {
        assert(v@ =~= kws_use_db());
    }
    v
}

/// Spec bytes of the SQL text `'CREATE TABLE'`.
pub open spec fn kws_create_tbl() -> Seq<u8> {
    seq![67u8, 82u8, 69u8, 65u8, 84u8, 69u8, 32u8, 84u8, 65u8, 66u8, 76u8, 69u8, 32u8]
}

fn kw_create_tbl() -> (r: Vec<u8>)
    ensures
        r@ == kws_create_tbl(),
{
    let mut v: Vec<u8> = Vec::new();
    v.push(67);
    v.push(82);
    v.push(69);
    v.push(65);
    v.push(84);
    v.push(69);
    v.push(32);
    v.push(84);
    v.push(65);
    v.push(66);
    v.push(76);
    v.push(69);
    v.push(32);
    proof {
        assert(v@ =~= kws_create_tbl());
    }
    v
}


// ---------------------------------------------------------------------
// Shared text-building pieces
// ---------------------------------------------------------------------
/// A value in single quotes, as SQL wants it.
pub open spec fn quote_val(v: Seq<u8>) -> Seq<u8> {
    seq![39u8] + v + seq![39u8]
}

/// `key='value'`.
pub open spec fn eq_item(p: (Seq<u8>, Seq<u8>)) -> Seq<u8> {
    p.0 + seq![61u8] + quote_val(p.1)
}

/// Equality conjunction `k1='v1' AND k2='v2' ...` from index `i` on.
pub open spec fn conj_from(ps: Seq<(Seq<u8>, Seq<u8>)>, i: int) -> Seq<u8>
    decreases ps.len() - i,
{
    if i < 0 || i >= ps.len() {
        Seq::empty()
    } else if i + 1 >= ps.len() {
        eq_item(ps[i])
    } else {
        eq_item(ps[i]) + kws_and_sep() + conj_from(ps, i + 1)
    }
}

/// The `WHERE` clause built from a node's parameters; absent or empty
/// parameters yield no clause.
pub open spec fn where_clause(ps: Option<Seq<(Seq<u8>, Seq<u8>)>>) -> Seq<u8> {
    match ps {
        Option::None => Seq::empty(),
        Option::Some(l) => if l.len() == 0 {
            Seq::empty()
        } else {
            kws_where() + conj_from(l, 0)
        },
    }
}

/// View of an optional parameter list.
pub open spec fn opt_params_view(p: Option<crate::parser::ParamList>) -> Option<
    Seq<(Seq<u8>, Seq<u8>)>,
> {
    match p {
        Option::None => Option::None,
        Option::Some(l) => Option::Some(crate::ast::params_view(l@)),
    }
}

/// Every parameter key from index `i` on names a column.
pub open spec fn params_ok_from(ps: Seq<(Seq<u8>, Seq<u8>)>, cols: Seq<(Seq<u8>, Seq<u8>, bool)>, i: int) -> bool
    decreases ps.len() - i,
{
    if i < 0 || i >= ps.len() {
        true
    } else {
        has_col_v(cols, ps[i].0) && params_ok_from(ps, cols, i + 1)
    }
}

/// Parameter keys of an optional list all name columns.
pub open spec fn params_ok_opt(ps: Option<Seq<(Seq<u8>, Seq<u8>)>>, cols: Seq<(Seq<u8>, Seq<u8>, bool)>) -> bool {
    match ps {
        Option::None => true,
        Option::Some(l) => params_ok_from(l, cols, 0),
    }
}

/// Comma-joined list of names from index `i` on.
pub open spec fn join_commas(names: Seq<Seq<u8>>, i: int) -> Seq<u8>
    decreases names.len() - i,
{
    if i < 0 || i >= names.len() {
        Seq::empty()
    } else if i + 1 >= names.len() {
        names[i]
    } else {
        names[i] + kws_comma_sep() + join_commas(names, i + 1)
    }
}

// ---------------------------------------------------------------------
// Read queries: SELECT
// ---------------------------------------------------------------------
/// Names of the scalar fields (leaf children) from index `i` on.
pub open spec fn leaf_names_from(l: Seq<QTree>, i: int) -> Seq<Seq<u8>>
    decreases l.len() - i,
{
    if i < 0 || i >= l.len() {
        Seq::empty()
    } else if l[i].attrs is None {
        seq![l[i].name] + leaf_names_from(l, i + 1)
    } else {
        leaf_names_from(l, i + 1)
    }
}

/// The projected column list: requested leaf fields in request order, or
/// `*` when the node selects no scalar field explicitly.
pub open spec fn projection(attrs: Option<Seq<QTree>>) -> Seq<u8> {
    match attrs {
        Option::None => seq![42u8],
        Option::Some(l) => {
            let ns = leaf_names_from(l, 0);
            if ns.len() == 0 {
                seq![42u8]
            } else {
                join_commas(ns, 0)
            }
        },
    }
}

/// The `SELECT` statement for one query node.
pub open spec fn select_stmt(t: QTree) -> Seq<u8> {
    kws_select() + projection(t.attrs) + kws_from() + t.name + where_clause(t.params)
}

/// Every leaf child from index `i` on names a column.
pub open spec fn qleaves_ok_from(l: Seq<QTree>, cols: Seq<(Seq<u8>, Seq<u8>, bool)>, i: int) -> bool
    decreases l.len() - i,
{
    if i < 0 || i >= l.len() {
        true
    } else if l[i].attrs is None {
        has_col_v(cols, l[i].name) && qleaves_ok_from(l, cols, i + 1)
    } else {
        qleaves_ok_from(l, cols, i + 1)
    }
}

/// Validate one read-query node against the schema: its table exists,
/// its parameter keys and leaf children name columns, and every nested
/// relation validates in turn.
pub open spec fn spec_q_check(t: QTree, ts: Seq<ObjectDef>) -> Result<(), TranslationError>
    decreases t, 0nat,
{
    match table_fields(ts, t.name) {
        Option::None => Result::Err(TranslationError::UnknownTable),
        Option::Some(cols) => {
            if !params_ok_opt(t.params, cols) {
                Result::Err(TranslationError::UnknownColumn)
            } else {
                match t.attrs {
                    Option::None => Result::Ok(()),
                    Option::Some(ats) => {
                        if !qleaves_ok_from(ats, cols, 0) {
                            Result::Err(TranslationError::UnknownColumn)
                        } else {
                            q_check_children(ats, ts, 0)
                        }
                    },
                }
            }
        },
    }
}

/// Validate the nested relations among children from index `i` on.
pub open spec fn q_check_children(l: Seq<QTree>, ts: Seq<ObjectDef>, i: int) -> Result<
    (),
    TranslationError,
>
    decreases l, l.len() - i,
{
    if i < 0 || i >= l.len() {
        Result::Ok(())
    } else if l[i].attrs is Some {
        match spec_q_check(l[i], ts) {
            Result::Err(e) => Result::Err(e),
            Result::Ok(u) => q_check_children(l, ts, i + 1),
        }
    } else {
        q_check_children(l, ts, i + 1)
    }
}

/// Translate one read-query node into its own `SELECT`.  A nested
/// relation needs a second query against the related table, keyed by the
/// parent's result, which only exists at run time: the relation is
/// validated here and its statement built by `spec_translate_relation`
/// once the parent's rows are known.  Fails exactly when a referenced
/// table or column is absent.
pub open spec fn spec_translate_get(t: QTree, ts: Seq<ObjectDef>) -> Result<
    Seq<Seq<u8>>,
    TranslationError,
> {
    match spec_q_check(t, ts) {
        Result::Err(e) => Result::Err(e),
        Result::Ok(u) => Result::Ok(seq![select_stmt(t)]),
    }
}

/// The `SELECT` for a nested relation, keyed by equalities the parent's
/// result supplies instead of the node's own parameters.
pub open spec fn keyed_select_stmt(t: QTree, keys: Seq<(Seq<u8>, Seq<u8>)>) -> Seq<u8> {
    kws_select() + projection(t.attrs) + kws_from() + t.name + where_clause(Option::Some(keys))
}

/// Translate a nested relation once the parent's result is known: its
/// `SELECT`, keyed by the given `(column, value)` equalities.  Fails
/// exactly when the relation's table, a key column, or a column the
/// relation itself references is absent.
pub open spec fn spec_translate_relation(t: QTree, keys: Seq<(Seq<u8>, Seq<u8>)>, ts: Seq<
    ObjectDef,
>) -> Result<Seq<u8>, TranslationError> {
    match table_fields(ts, t.name) {
        Option::None => Result::Err(TranslationError::UnknownTable),
        Option::Some(cols) => {
            if !params_ok_from(keys, cols, 0) {
                Result::Err(TranslationError::UnknownColumn)
            } else {
                match spec_q_check(t, ts) {
                    Result::Err(e) => Result::Err(e),
                    Result::Ok(u) => Result::Ok(keyed_select_stmt(t, keys)),
                }
            }
        },
    }
}

// ---------------------------------------------------------------------
// Mutations: INSERT, UPDATE, DELETE
// ---------------------------------------------------------------------
/// Keys of a parameter list from index `i` on.
pub open spec fn param_keys_from(ps: Seq<(Seq<u8>, Seq<u8>)>, i: int) -> Seq<Seq<u8>>
    decreases ps.len() - i,
{
    if i < 0 || i >= ps.len() {
        Seq::empty()
    } else {
        seq![ps[i].0] + param_keys_from(ps, i + 1)
    }
}

/// Quoted values of a parameter list from index `i` on.
pub open spec fn param_vals_from(ps: Seq<(Seq<u8>, Seq<u8>)>, i: int) -> Seq<Seq<u8>>
    decreases ps.len() - i,
{
    if i < 0 || i >= ps.len() {
        Seq::empty()
    } else {
        seq![quote_val(ps[i].1)] + param_vals_from(ps, i + 1)
    }
}

/// `INSERT INTO name (k1, k2) VALUES ('v1', 'v2')` from a parameter list.
pub open spec fn insert_stmt_params(name: Seq<u8>, ps: Seq<(Seq<u8>, Seq<u8>)>) -> Seq<u8> {
    kws_insert_into() + name + seq![32u8, 40u8] + join_commas(param_keys_from(ps, 0), 0)
        + kws_values() + join_commas(param_vals_from(ps, 0), 0) + seq![41u8]
}

/// Names of the scalar field assignments (children carrying a value).
pub open spec fn leaf_keys_from(l: Seq<MTree>, i: int) -> Seq<Seq<u8>>
    decreases l.len() - i,
{
    if i < 0 || i >= l.len() {
        Seq::empty()
    } else if l[i].value is Some {
        seq![l[i].name] + leaf_keys_from(l, i + 1)
    } else {
        leaf_keys_from(l, i + 1)
    }
}

/// Quoted values of the scalar field assignments.
pub open spec fn leaf_vals_from(l: Seq<MTree>, i: int) -> Seq<Seq<u8>>
    decreases l.len() - i,
{
    if i < 0 || i >= l.len() {
        Seq::empty()
    } else {
        match l[i].value {
            Option::Some(v) => seq![quote_val(v)] + leaf_vals_from(l, i + 1),
            Option::None => leaf_vals_from(l, i + 1),
        }
    }
}

/// `INSERT INTO name (...) VALUES (...)` from scalar field assignments.
pub open spec fn insert_stmt_leaves(name: Seq<u8>, l: Seq<MTree>) -> Seq<u8> {
    kws_insert_into() + name + seq![32u8, 40u8] + join_commas(leaf_keys_from(l, 0), 0)
        + kws_values() + join_commas(leaf_vals_from(l, 0), 0) + seq![41u8]
}

/// Check the scalar field assignments of an insert node and count them: a
/// valued child must be a bare leaf naming a column.
pub open spec fn add_leaf_check(l: Seq<MTree>, cols: Seq<(Seq<u8>, Seq<u8>, bool)>, i: int) -> Result<
    int,
    TranslationError,
>
    decreases l.len() - i,
{
    if i < 0 || i >= l.len() {
        Result::Ok(0)
    } else if l[i].value is Some {
        if l[i].params is Some || l[i].attrs is Some {
            Result::Err(TranslationError::InvalidShape)
        } else if !has_col_v(cols, l[i].name) {
            Result::Err(TranslationError::UnknownColumn)
        } else {
            match add_leaf_check(l, cols, i + 1) {
                Result::Err(e) => Result::Err(e),
                Result::Ok(n) => Result::Ok(1 + n),
            }
        }
    } else {
        add_leaf_check(l, cols, i + 1)
    }
}

/// Translate one insert node.  A node with parameters and no children
/// inserts one row from those parameters; a node with children inserts
/// one row from its scalar assignments (if any) and recursively inserts
/// the rows its nested objects describe.
pub open spec fn spec_translate_add(t: MTree, ts: Seq<ObjectDef>) -> Result<
    Seq<Seq<u8>>,
    TranslationError,
>
    decreases t, 0nat,
{
    match table_fields(ts, t.name) {
        Option::None => Result::Err(TranslationError::UnknownTable),
        Option::Some(cols) => match t.attrs {
            Option::None => match t.params {
                Option::None => Result::Err(TranslationError::InvalidShape),
                Option::Some(ps) => {
                    if ps.len() == 0 || t.value is Some {
                        Result::Err(TranslationError::InvalidShape)
                    } else if !params_ok_from(ps, cols, 0) {
                        Result::Err(TranslationError::UnknownColumn)
                    } else {
                        Result::Ok(seq![insert_stmt_params(t.name, ps)])
                    }
                },
            },
            Option::Some(ats) => {
                if t.value is Some || t.params is Some {
                    Result::Err(TranslationError::InvalidShape)
                } else {
                    match add_leaf_check(ats, cols, 0) {
                        Result::Err(e) => Result::Err(e),
                        Result::Ok(nleaves) => match add_children(ats, ts, 0) {
                            Result::Err(e) => Result::Err(e),
                            Result::Ok(rest) => if nleaves > 0 {
                                Result::Ok(seq![insert_stmt_leaves(t.name, ats)] + rest)
                            } else {
                                Result::Ok(rest)
                            },
                        },
                    }
                }
            },
        },
    }
}

/// Statements of the nested objects among insert children from index `i`
/// on: a child with parameters is a related-row insert of its own; a
/// child with children is a wrapper whose objects are inserted in turn.
pub open spec fn add_children(l: Seq<MTree>, ts: Seq<ObjectDef>, i: int) -> Result<
    Seq<Seq<u8>>,
    TranslationError,
>
    decreases l, l.len() - i,
{
    if i < 0 || i >= l.len() {
        Result::Ok(Seq::empty())
    } else if l[i].value is Some {
        add_children(l, ts, i + 1)
    } else if l[i].params is Some && l[i].attrs is None {
        match spec_translate_add(l[i], ts) {
            Result::Err(e) => Result::Err(e),
            Result::Ok(own) => match add_children(l, ts, i + 1) {
                Result::Err(e) => Result::Err(e),
                Result::Ok(more) => Result::Ok(own + more),
            },
        }
    } else if l[i].attrs is Some && l[i].params is None {
        match l[i].attrs {
            Option::Some(sub) => match add_children(sub, ts, 0) {
                Result::Err(e) => Result::Err(e),
                Result::Ok(own) => match add_children(l, ts, i + 1) {
                    Result::Err(e) => Result::Err(e),
                    Result::Ok(more) => Result::Ok(own + more),
                },
            },
            Option::None => Result::Err(TranslationError::InvalidShape),
        }
    } else {
        Result::Err(TranslationError::InvalidShape)
    }
}

/// `key='value'` assignments of an update node from index `i` on.
pub open spec fn set_from(l: Seq<MTree>, i: int) -> Seq<Seq<u8>>
    decreases l.len() - i,
{
    if i < 0 || i >= l.len() {
        Seq::empty()
    } else {
        match l[i].value {
            Option::Some(v) => seq![eq_item((l[i].name, v))] + set_from(l, i + 1),
            Option::None => set_from(l, i + 1),
        }
    }
}

/// Every update child from index `i` on is a bare scalar assignment to a
/// column.
pub open spec fn upd_leaves_ok(l: Seq<MTree>, cols: Seq<(Seq<u8>, Seq<u8>, bool)>, i: int) -> Result<
    (),
    TranslationError,
>
    decreases l.len() - i,
{
    if i < 0 || i >= l.len() {
        Result::Ok(())
    } else if l[i].value is None || l[i].params is Some || l[i].attrs is Some {
        Result::Err(TranslationError::InvalidShape)
    } else if !has_col_v(cols, l[i].name) {
        Result::Err(TranslationError::UnknownColumn)
    } else {
        upd_leaves_ok(l, cols, i + 1)
    }
}

/// The `UPDATE` statement for one mutation node.
pub open spec fn update_stmt(t: MTree, ats: Seq<MTree>) -> Seq<u8> {
    kws_update() + t.name + kws_set_kw() + join_commas(set_from(ats, 0), 0) + where_clause(
        t.params,
    )
}

/// Translate one update node: `UPDATE name SET ... WHERE ...`.  Fails on
/// an unknown table or column, or when the node's shape is not a set of
/// scalar assignments selected by parameters.
pub open spec fn spec_translate_update(t: MTree, ts: Seq<ObjectDef>) -> Result<
    Seq<u8>,
    TranslationError,
> {
    match table_fields(ts, t.name) {
        Option::None => Result::Err(TranslationError::UnknownTable),
        Option::Some(cols) => {
            if t.value is Some {
                Result::Err(TranslationError::InvalidShape)
            } else {
                match t.attrs {
                    Option::None => Result::Err(TranslationError::InvalidShape),
                    Option::Some(ats) => {
                        if ats.len() == 0 {
                            Result::Err(TranslationError::InvalidShape)
                        } else {
                            match upd_leaves_ok(ats, cols, 0) {
                                Result::Err(e) => Result::Err(e),
                                Result::Ok(u) => if !params_ok_opt(t.params, cols) {
                                    Result::Err(TranslationError::UnknownColumn)
                                } else {
                                    Result::Ok(update_stmt(t, ats))
                                },
                            }
                        }
                    },
                }
            }
        },
    }
}

/// Translate one delete node: `DELETE FROM name WHERE ...`.  A delete
/// node carrying children or a value is rejected.
pub open spec fn spec_translate_delete(t: MTree, ts: Seq<ObjectDef>) -> Result<
    Seq<u8>,
    TranslationError,
> {
    match table_fields(ts, t.name) {
        Option::None => Result::Err(TranslationError::UnknownTable),
        Option::Some(cols) => {
            if t.attrs is Some || t.value is Some {
                Result::Err(TranslationError::InvalidShape)
            } else if !params_ok_opt(t.params, cols) {
                Result::Err(TranslationError::UnknownColumn)
            } else {
                Result::Ok(kws_delete_from() + t.name + where_clause(t.params))
            }
        },
    }
}

// ---------------------------------------------------------------------
// Result rows back to response text
// ---------------------------------------------------------------------
/// View of a row list.
pub open spec fn rows_view(v: Seq<Vec<Vec<u8>>>) -> Seq<Seq<Seq<u8>>> {
    v.map_values(|r: Vec<Vec<u8>>| stmts_view(r@))
}

/// `field:"value"` cells of one row, in requested-field order, comma
/// separated; extra columns beyond the requested fields are dropped.
pub open spec fn cells_from(f: Seq<Seq<u8>>, row: Seq<Seq<u8>>, i: int) -> Seq<u8>
    decreases f.len() - i,
{
    if i < 0 || i >= f.len() || i >= row.len() {
        Seq::empty()
    } else if i + 1 >= f.len() || i + 1 >= row.len() {
        f[i] + seq![58u8, 34u8] + row[i] + seq![34u8]
    } else {
        f[i] + seq![58u8, 34u8] + row[i] + seq![34u8, 44u8] + cells_from(f, row, i + 1)
    }
}

/// One row as a braced object.
pub open spec fn row_obj(f: Seq<Seq<u8>>, row: Seq<Seq<u8>>) -> Seq<u8> {
    seq![123u8] + cells_from(f, row, 0) + seq![125u8]
}

/// All rows, comma separated, from index `i` on.
pub open spec fn rows_from(f: Seq<Seq<u8>>, rows: Seq<Seq<Seq<u8>>>, i: int) -> Seq<u8>
    decreases rows.len() - i,
{
    if i < 0 || i >= rows.len() {
        Seq::empty()
    } else if i + 1 >= rows.len() {
        row_obj(f, rows[i])
    } else {
        row_obj(f, rows[i]) + seq![44u8] + rows_from(f, rows, i + 1)
    }
}

/// The response text: an array of row objects whose cell order follows
/// the requested field order.
pub open spec fn response_text(f: Seq<Seq<u8>>, rows: Seq<Seq<Seq<u8>>>) -> Seq<u8> {
    seq![91u8] + rows_from(f, rows, 0) + seq![93u8]
}

// ---------------------------------------------------------------------
// Bootstrap statements
// ---------------------------------------------------------------------
/// `name type` column declarations from index `i` on.
pub open spec fn coldefs_from(fs: Seq<(Seq<u8>, Seq<u8>, bool)>, i: int) -> Seq<Seq<u8>>
    decreases fs.len() - i,
{
    if i < 0 || i >= fs.len() {
        Seq::empty()
    } else {
        seq![fs[i].0 + seq![32u8] + fs[i].1] + coldefs_from(fs, i + 1)
    }
}

/// `CREATE TABLE db.name (col type, ...)`.
pub open spec fn create_table_stmt(db: Seq<u8>, t: (Seq<u8>, Seq<(Seq<u8>, Seq<u8>, bool)>)) -> Seq<
    u8,
> {
    kws_create_tbl() + db + seq![46u8] + t.0 + seq![32u8, 40u8] + join_commas(
        coldefs_from(t.1, 0),
        0,
    ) + seq![41u8]
}


// ---------------------------------------------------------------------
// Executable translator: shared pieces
// ---------------------------------------------------------------------
proof fn lemma_stmts_view_insert(l: Seq<Vec<u8>>, x: Vec<u8>)
    ensures
        stmts_view(l.insert(0, x)) == seq![x@] + stmts_view(l),
{
    assert(stmts_view(l.insert(0, x)) =~= seq![x@] + stmts_view(l));
}

proof fn lemma_stmts_view_add(a: Seq<Vec<u8>>, b: Seq<Vec<u8>>)
    ensures
        stmts_view(a + b) == stmts_view(a) + stmts_view(b),
{
    assert(stmts_view(a + b) =~= stmts_view(a) + stmts_view(b));
}

fn clone_bytes(v: &Vec<u8>) -> (r: Vec<u8>)
    ensures
        r@ == v@,
{
    let mut out: Vec<u8> = Vec::new();
    let mut i: usize = 0;
    while i < v.len()
        invariant
            i <= v.len(),
            out@ == v@.subrange(0, i as int),
        decreases v.len() - i,
    {
        out.push(v[i]);
        proof {
            assert(v@.subrange(0, i as int + 1) =~= v@.subrange(0, i as int) + seq![v@[i as int]]);
        }
        i = i + 1;
    }
    proof {
        assert(v@.subrange(0, v@.len() as int) =~= v@);
    }
    out
}

fn quote_val_x(v: &Vec<u8>) -> (r: Vec<u8>)
    ensures
        r@ == quote_val(v@),
{
    let mut out: Vec<u8> = Vec::new();
    out.push(39);
    append_vec(&mut out, clone_bytes(v));
    out.push(39);
    proof {
        assert(out@ =~= quote_val(v@));
    }
    out
}

fn eq_item_x(p: &crate::parser::ParamPair) -> (r: Vec<u8>)
    ensures
        r@ == eq_item((p.0@, p.1@)),
{
    let mut out = clone_bytes(&p.0);
    out.push(61);
    append_vec(&mut out, quote_val_x(&p.1));
    proof {
        assert(out@ =~= eq_item((p.0@, p.1@)));
    }
    out
}

fn conj_from_x(ps: &crate::parser::ParamList, i: usize) -> (r: Vec<u8>)
    ensures
        r@ == conj_from(crate::ast::params_view(ps@), i as int),
    decreases ps.len() - i,
{
    proof {
        if i < ps.len() {
            assert(crate::ast::params_view(ps@)[i as int] == (ps@[i as int].0@, ps@[i as int].1@));
        }
    }
    if i >= ps.len() {
        Vec::new()
    } else if i + 1 >= ps.len() {
        eq_item_x(&ps[i])
    } else {
        let mut out = eq_item_x(&ps[i]);
        append_vec(&mut out, kw_and_sep());
        append_vec(&mut out, conj_from_x(ps, i + 1));
        out
    }
}

fn where_x(ps: &Option<crate::parser::ParamList>) -> (r: Vec<u8>)
    ensures
        r@ == where_clause(opt_params_view(*ps)),
{
    match ps {
        Option::None => Vec::new(),
        Option::Some(l) => {
            if l.len() == 0 {
                Vec::new()
            } else {
                let mut out = kw_where();
                append_vec(&mut out, conj_from_x(l, 0));
                out
            }
        },
    }
}

fn params_ok_x(ps: &crate::parser::ParamList, cols: &Vec<FieldDef>, i: usize) -> (r: bool)
    ensures
        r == params_ok_from(crate::ast::params_view(ps@), fields_view(cols@), i as int),
    decreases ps.len() - i,
{
    proof {
        if i < ps.len() {
            assert(crate::ast::params_view(ps@)[i as int] == (ps@[i as int].0@, ps@[i as int].1@));
        }
    }
    if i >= ps.len() {
        true
    } else if !has_col(cols, &ps[i].0) {
        false
    } else {
        params_ok_x(ps, cols, i + 1)
    }
}

fn params_ok_opt_x(ps: &Option<crate::parser::ParamList>, cols: &Vec<FieldDef>) -> (r: bool)
    ensures
        r == params_ok_opt(opt_params_view(*ps), fields_view(cols@)),
{
    match ps {
        Option::None => true,
        Option::Some(l) => params_ok_x(l, cols, 0),
    }
}

fn join_commas_x(names: &Vec<Vec<u8>>, i: usize) -> (r: Vec<u8>)
    ensures
        r@ == join_commas(stmts_view(names@), i as int),
    decreases names.len() - i,
{
    proof {
        if i < names.len() {
            assert(stmts_view(names@)[i as int] == names@[i as int]@);
        }
    }
    if i >= names.len() {
        Vec::new()
    } else if i + 1 >= names.len() {
        clone_bytes(&names[i])
    } else {
        let mut out = clone_bytes(&names[i]);
        append_vec(&mut out, kw_comma_sep());
        append_vec(&mut out, join_commas_x(names, i + 1));
        out
    }
}

// ---------------------------------------------------------------------
// Executable translator: SELECT
// ---------------------------------------------------------------------
/// View of an optional child list of a query node.
pub open spec fn opt_qattrs_view(a: Option<Vec<QueryObject>>) -> Option<Seq<QTree>> {
    match a {
        Option::None => Option::None,
        Option::Some(v) => Option::Some(crate::ast::q_view_list(v@)),
    }
}

fn leaf_names_x(l: &Vec<QueryObject>, i: usize) -> (r: Vec<Vec<u8>>)
    ensures
        stmts_view(r@) == leaf_names_from(crate::ast::q_view_list(l@), i as int),
    decreases l.len() - i,
{
    proof {
        crate::ast::lemma_q_view_list_len(l@);
        if i < l.len() {
            crate::ast::lemma_q_view_list_index(l@, i as int);
        }
    }
    if i >= l.len() {
        let r: Vec<Vec<u8>> = Vec::new();
        proof {
            assert(stmts_view(r@) =~= leaf_names_from(crate::ast::q_view_list(l@), i as int));
        }
        r
    } else {
        let mut rest = leaf_names_x(l, i + 1);
        if l[i].attrs.is_none() {
            let ghost old_rest = rest@;
            rest.insert(0, clone_bytes(&l[i].name));
            proof {
                lemma_stmts_view_insert(old_rest, rest[0]);
            }
        }
        rest
    }
}

fn qleaves_ok_x(l: &Vec<QueryObject>, cols: &Vec<FieldDef>, i: usize) -> (r: bool)
    ensures
        r == qleaves_ok_from(crate::ast::q_view_list(l@), fields_view(cols@), i as int),
    decreases l.len() - i,
{
    proof {
        crate::ast::lemma_q_view_list_len(l@);
        if i < l.len() {
            crate::ast::lemma_q_view_list_index(l@, i as int);
        }
    }
    if i >= l.len() {
        true
    } else if l[i].attrs.is_none() && !has_col(cols, &l[i].name) {
        false
    } else {
        qleaves_ok_x(l, cols, i + 1)
    }
}

fn projection_x(attrs: &Option<Vec<QueryObject>>) -> (r: Vec<u8>)
    ensures
        r@ == projection(opt_qattrs_view(*attrs)),
{
    match attrs {
        Option::None => {
            let mut out: Vec<u8> = Vec::new();
            out.push(42);
            proof {
                assert(out@ =~= seq![42u8]);
            }
            out
        },
        Option::Some(l) => {
            let names = leaf_names_x(l, 0);
            if names.len() == 0 {
                let mut out: Vec<u8> = Vec::new();
                out.push(42);
                proof {
                    assert(out@ =~= seq![42u8]);
                }
                out
            } else {
                join_commas_x(&names, 0)
            }
        },
    }
}

/// The scalar field names a query node requests, in request order:
/// the columns its response cells follow.
pub fn leaf_field_names(t: &QueryObject) -> (r: Vec<Vec<u8>>)
    ensures
        (match t@.attrs {
            Option::Some(l) => stmts_view(r@) == leaf_names_from(l, 0),
            Option::None => r@.len() == 0,
        }),
{
    match &t.attrs {
        Option::None => Vec::new(),
        Option::Some(l) => leaf_names_x(l, 0),
    }
}

fn select_x(t: &QueryObject) -> (r: Vec<u8>)
    ensures
        r@ == select_stmt(t@),
{
    let mut out = kw_select();
    append_vec(&mut out, projection_x(&t.attrs));
    append_vec(&mut out, kw_from());
    append_vec(&mut out, clone_bytes(&t.name));
    append_vec(&mut out, where_x(&t.params));
    proof {
        assert(out@ =~= select_stmt(t@));
    }
    out
}

/// Translate a read-query tree into its own `SELECT` statement, with
/// every nested relation validated; their keyed statements come from
/// `translate_relation` once the parent's rows are known.
pub fn translate_get(t: &QueryObject, schema: &Schema) -> (r: Result<
    Vec<Vec<u8>>,
    TranslationError,
>)
    ensures
        (match r {
            Result::Ok(v) => spec_translate_get(t@, schema.tables@)
                == Result::<Seq<Seq<u8>>, TranslationError>::Ok(stmts_view(v@)),
            Result::Err(e) => spec_translate_get(t@, schema.tables@)
                == Result::<Seq<Seq<u8>>, TranslationError>::Err(e),
        }),
{
    match q_check_x(t, schema) {
        Result::Err(e) => Result::Err(e),
        Result::Ok(u) => {
            let stmt = select_x(t);
            let mut v: Vec<Vec<u8>> = Vec::new();
            v.push(stmt);
            proof {
                assert(stmts_view(v@) =~= seq![select_stmt(t@)]);
            }
            Result::Ok(v)
        },
    }
}

/// Translate a nested relation against the parent's result: its `SELECT`
/// keyed by the given `(column, value)` equalities.
pub fn translate_relation(t: &QueryObject, keys: &crate::parser::ParamList, schema: &Schema) -> (r:
    Result<Vec<u8>, TranslationError>)
    ensures
        (match r {
            Result::Ok(v) => spec_translate_relation(
                t@,
                crate::ast::params_view(keys@),
                schema.tables@,
            ) == Result::<Seq<u8>, TranslationError>::Ok(v@),
            Result::Err(e) => spec_translate_relation(
                t@,
                crate::ast::params_view(keys@),
                schema.tables@,
            ) == Result::<Seq<u8>, TranslationError>::Err(e),
        }),
{
    match find_table(&schema.tables, &t.name) {
        Option::None => Result::Err(TranslationError::UnknownTable),
        Option::Some(ti) => {
            let cols = &schema.tables[ti].1;
            if !params_ok_x(keys, cols, 0) {
                Result::Err(TranslationError::UnknownColumn)
            } else {
                match q_check_x(t, schema) {
                    Result::Err(e) => Result::Err(e),
                    Result::Ok(u) => {
                        let mut out = kw_select();
                        append_vec(&mut out, projection_x(&t.attrs));
                        append_vec(&mut out, kw_from());
                        append_vec(&mut out, clone_bytes(&t.name));
                        if keys.len() == 0 {
                            proof {
                                assert(out@ =~= keyed_select_stmt(
                                    t@,
                                    crate::ast::params_view(keys@),
                                ));
                            }
                        } else {
                            let mut wc = kw_where();
                            append_vec(&mut wc, conj_from_x(keys, 0));
                            append_vec(&mut out, wc);
                            proof {
                                assert(out@ =~= keyed_select_stmt(
                                    t@,
                                    crate::ast::params_view(keys@),
                                ));
                            }
                        }
                        Result::Ok(out)
                    },
                }
            }
        },
    }
}

fn q_check_x(t: &QueryObject, schema: &Schema) -> (r: Result<(), TranslationError>)
    ensures
        spec_q_check(t@, schema.tables@) == (match r {
            Result::Ok(u) => Result::<(), TranslationError>::Ok(()),
            Result::Err(e) => Result::<(), TranslationError>::Err(e),
        }),
    decreases *t, 0nat,
{
    match find_table(&schema.tables, &t.name) {
        Option::None => Result::Err(TranslationError::UnknownTable),
        Option::Some(ti) => {
            let cols = &schema.tables[ti].1;
            if !params_ok_opt_x(&t.params, cols) {
                Result::Err(TranslationError::UnknownColumn)
            } else {
                match &t.attrs {
                    Option::None => Result::Ok(()),
                    Option::Some(ats) => {
                        if !qleaves_ok_x(ats, cols, 0) {
                            Result::Err(TranslationError::UnknownColumn)
                        } else {
                            q_check_children_x(ats, schema, 0)
                        }
                    },
                }
            }
        },
    }
}

fn q_check_children_x(l: &Vec<QueryObject>, schema: &Schema, i: usize) -> (r: Result<
    (),
    TranslationError,
>)
    ensures
        q_check_children(crate::ast::q_view_list(l@), schema.tables@, i as int) == (match r {
            Result::Ok(u) => Result::<(), TranslationError>::Ok(()),
            Result::Err(e) => Result::<(), TranslationError>::Err(e),
        }),
    decreases l@, l.len() - i,
{
    proof {
        crate::ast::lemma_q_view_list_len(l@);
        if i < l.len() {
            crate::ast::lemma_q_view_list_index(l@, i as int);
        }
    }
    if i >= l.len() {
        Result::Ok(())
    } else if l[i].attrs.is_some() {
        match q_check_x(&l[i], schema) {
            Result::Err(e) => Result::Err(e),
            Result::Ok(u) => q_check_children_x(l, schema, i + 1),
        }
    } else {
        q_check_children_x(l, schema, i + 1)
    }
}

fn append_stmts(out: &mut Vec<Vec<u8>>, xs: Vec<Vec<u8>>)
    ensures
        final(out)@ == old(out)@ + xs@,
{
    let mut xs = xs;
    out.append(&mut xs);
}


// ---------------------------------------------------------------------
// Executable translator: mutations
// ---------------------------------------------------------------------
/// View of an optional child list of a mutation node.
pub open spec fn opt_mattrs_view(a: Option<Vec<MutationObject>>) -> Option<Seq<MTree>> {
    match a {
        Option::None => Option::None,
        Option::Some(v) => Option::Some(crate::ast::m_view_list(v@)),
    }
}

fn param_keys_x(ps: &crate::parser::ParamList, i: usize) -> (r: Vec<Vec<u8>>)
    ensures
        stmts_view(r@) == param_keys_from(crate::ast::params_view(ps@), i as int),
    decreases ps.len() - i,
{
    proof {
        if i < ps.len() {
            assert(crate::ast::params_view(ps@)[i as int] == (ps@[i as int].0@, ps@[i as int].1@));
        }
    }
    if i >= ps.len() {
        let r: Vec<Vec<u8>> = Vec::new();
        proof {
            assert(stmts_view(r@) =~= param_keys_from(crate::ast::params_view(ps@), i as int));
        }
        r
    } else {
        let mut rest = param_keys_x(ps, i + 1);
        let ghost old_rest = rest@;
        rest.insert(0, clone_bytes(&ps[i].0));
        proof {
            lemma_stmts_view_insert(old_rest, rest[0]);
        }
        rest
    }
}

fn param_vals_x(ps: &crate::parser::ParamList, i: usize) -> (r: Vec<Vec<u8>>)
    ensures
        stmts_view(r@) == param_vals_from(crate::ast::params_view(ps@), i as int),
    decreases ps.len() - i,
{
    proof {
        if i < ps.len() {
            assert(crate::ast::params_view(ps@)[i as int] == (ps@[i as int].0@, ps@[i as int].1@));
        }
    }
    if i >= ps.len() {
        let r: Vec<Vec<u8>> = Vec::new();
        proof {
            assert(stmts_view(r@) =~= param_vals_from(crate::ast::params_view(ps@), i as int));
        }
        r
    } else {
        let mut rest = param_vals_x(ps, i + 1);
        let ghost old_rest = rest@;
        rest.insert(0, quote_val_x(&ps[i].1));
        proof {
            lemma_stmts_view_insert(old_rest, rest[0]);
        }
        rest
    }
}

fn insert_params_x(name: &Vec<u8>, ps: &crate::parser::ParamList) -> (r: Vec<u8>)
    ensures
        r@ == insert_stmt_params(name@, crate::ast::params_view(ps@)),
{
    let mut out = kw_insert_into();
    append_vec(&mut out, clone_bytes(name));
    out.push(32);
    out.push(40);
    let keys = param_keys_x(ps, 0);
    append_vec(&mut out, join_commas_x(&keys, 0));
    append_vec(&mut out, kw_values());
    let vals = param_vals_x(ps, 0);
    append_vec(&mut out, join_commas_x(&vals, 0));
    out.push(41);
    proof {
        assert(out@ =~= insert_stmt_params(name@, crate::ast::params_view(ps@)));
    }
    out
}

fn leaf_keys_x(l: &Vec<MutationObject>, i: usize) -> (r: Vec<Vec<u8>>)
    ensures
        stmts_view(r@) == leaf_keys_from(crate::ast::m_view_list(l@), i as int),
    decreases l.len() - i,
{
    proof {
        crate::ast::lemma_m_view_list_len(l@);
        if i < l.len() {
            crate::ast::lemma_m_view_list_index(l@, i as int);
        }
    }
    if i >= l.len() {
        let r: Vec<Vec<u8>> = Vec::new();
        proof {
            assert(stmts_view(r@) =~= leaf_keys_from(crate::ast::m_view_list(l@), i as int));
        }
        r
    } else {
        let mut rest = leaf_keys_x(l, i + 1);
        if l[i].value.is_some() {
            let ghost old_rest = rest@;
            rest.insert(0, clone_bytes(&l[i].name));
            proof {
                lemma_stmts_view_insert(old_rest, rest[0]);
            }
        }
        rest
    }
}

fn leaf_vals_x(l: &Vec<MutationObject>, i: usize) -> (r: Vec<Vec<u8>>)
    ensures
        stmts_view(r@) == leaf_vals_from(crate::ast::m_view_list(l@), i as int),
    decreases l.len() - i,
{
    proof {
        crate::ast::lemma_m_view_list_len(l@);
        if i < l.len() {
            crate::ast::lemma_m_view_list_index(l@, i as int);
        }
    }
    if i >= l.len() {
        let r: Vec<Vec<u8>> = Vec::new();
        proof {
            assert(stmts_view(r@) =~= leaf_vals_from(crate::ast::m_view_list(l@), i as int));
        }
        r
    } else {
        let mut rest = leaf_vals_x(l, i + 1);
        match &l[i].value {
            Option::Some(v) => {
                let ghost old_rest = rest@;
                rest.insert(0, quote_val_x(v));
                proof {
                    lemma_stmts_view_insert(old_rest, rest[0]);
                }
            },
            Option::None => {},
        }
        rest
    }
}

fn insert_leaves_x(name: &Vec<u8>, l: &Vec<MutationObject>) -> (r: Vec<u8>)
    ensures
        r@ == insert_stmt_leaves(name@, crate::ast::m_view_list(l@)),
{
    let mut out = kw_insert_into();
    append_vec(&mut out, clone_bytes(name));
    out.push(32);
    out.push(40);
    let keys = leaf_keys_x(l, 0);
    append_vec(&mut out, join_commas_x(&keys, 0));
    append_vec(&mut out, kw_values());
    let vals = leaf_vals_x(l, 0);
    append_vec(&mut out, join_commas_x(&vals, 0));
    out.push(41);
    proof {
        assert(out@ =~= insert_stmt_leaves(name@, crate::ast::m_view_list(l@)));
    }
    out
}

fn add_leaf_check_x(l: &Vec<MutationObject>, cols: &Vec<FieldDef>, i: usize) -> (r: Result<
    usize,
    TranslationError,
>)
    requires
        i <= l.len(),
    ensures
        (match r {
            Result::Ok(n) => n <= l.len() - i && add_leaf_check(
                crate::ast::m_view_list(l@),
                fields_view(cols@),
                i as int,
            ) == Result::<int, TranslationError>::Ok(n as int),
            Result::Err(e) => add_leaf_check(
                crate::ast::m_view_list(l@),
                fields_view(cols@),
                i as int,
            ) == Result::<int, TranslationError>::Err(e),
        }),
    decreases l.len() - i,
{
    proof {
        crate::ast::lemma_m_view_list_len(l@);
        if i < l.len() {
            crate::ast::lemma_m_view_list_index(l@, i as int);
        }
    }
    if i >= l.len() {
        Result::Ok(0)
    } else if l[i].value.is_some() {
        if l[i].params.is_some() || l[i].attrs.is_some() {
            Result::Err(TranslationError::InvalidShape)
        } else if !has_col(cols, &l[i].name) {
            Result::Err(TranslationError::UnknownColumn)
        } else {
            match add_leaf_check_x(l, cols, i + 1) {
                Result::Err(e) => Result::Err(e),
                Result::Ok(n) => Result::Ok(n + 1),
            }
        }
    } else {
        add_leaf_check_x(l, cols, i + 1)
    }
}

/// Translate an insert mutation into its `INSERT` statements.
pub fn translate_add(t: &MutationObject, schema: &Schema) -> (r: Result<
    Vec<Vec<u8>>,
    TranslationError,
>)
    ensures
        (match r {
            Result::Ok(v) => spec_translate_add(t@, schema.tables@)
                == Result::<Seq<Seq<u8>>, TranslationError>::Ok(stmts_view(v@)),
            Result::Err(e) => spec_translate_add(t@, schema.tables@)
                == Result::<Seq<Seq<u8>>, TranslationError>::Err(e),
        }),
    decreases *t, 0nat,
{
    match find_table(&schema.tables, &t.name) {
        Option::None => Result::Err(TranslationError::UnknownTable),
        Option::Some(ti) => {
            let cols = &schema.tables[ti].1;
            match &t.attrs {
                Option::None => match &t.params {
                    Option::None => Result::Err(TranslationError::InvalidShape),
                    Option::Some(ps) => {
                        if ps.len() == 0 || t.value.is_some() {
                            Result::Err(TranslationError::InvalidShape)
                        } else if !params_ok_x(ps, cols, 0) {
                            Result::Err(TranslationError::UnknownColumn)
                        } else {
                            let stmt = insert_params_x(&t.name, ps);
                            let mut v: Vec<Vec<u8>> = Vec::new();
                            v.push(stmt);
                            proof {
                                assert(stmts_view(v@) =~= seq![
                                    insert_stmt_params(t.name@, crate::ast::params_view(ps@)),
                                ]);
                            }
                            Result::Ok(v)
                        }
                    },
                },
                Option::Some(ats) => {
                    if t.value.is_some() || t.params.is_some() {
                        Result::Err(TranslationError::InvalidShape)
                    } else {
                        match add_leaf_check_x(ats, cols, 0) {
                            Result::Err(e) => Result::Err(e),
                            Result::Ok(nleaves) => match add_children_x(ats, schema, 0) {
                                Result::Err(e) => Result::Err(e),
                                Result::Ok(rest) => {
                                    if nleaves > 0 {
                                        let stmt = insert_leaves_x(&t.name, ats);
                                        let ghost old_rest = rest@;
                                        let mut rest = rest;
                                        rest.insert(0, stmt);
                                        proof {
                                            lemma_stmts_view_insert(old_rest, rest[0]);
                                        }
                                        Result::Ok(rest)
                                    } else {
                                        Result::Ok(rest)
                                    }
                                },
                            },
                        }
                    }
                },
            }
        },
    }
}

fn add_children_x(l: &Vec<MutationObject>, schema: &Schema, i: usize) -> (r: Result<
    Vec<Vec<u8>>,
    TranslationError,
>)
    ensures
        (match r {
            Result::Ok(v) => add_children(crate::ast::m_view_list(l@), schema.tables@, i as int)
                == Result::<Seq<Seq<u8>>, TranslationError>::Ok(stmts_view(v@)),
            Result::Err(e) => add_children(crate::ast::m_view_list(l@), schema.tables@, i as int)
                == Result::<Seq<Seq<u8>>, TranslationError>::Err(e),
        }),
    decreases l@, l.len() - i,
{
    proof {
        crate::ast::lemma_m_view_list_len(l@);
        if i < l.len() {
            crate::ast::lemma_m_view_list_index(l@, i as int);
        }
    }
    if i >= l.len() {
        let v: Vec<Vec<u8>> = Vec::new();
        proof {
            assert(stmts_view(v@) =~= Seq::<Seq<u8>>::empty());
        }
        Result::Ok(v)
    } else if l[i].value.is_some() {
        add_children_x(l, schema, i + 1)
    } else if l[i].params.is_some() && l[i].attrs.is_none() {
        match translate_add(&l[i], schema) {
            Result::Err(e) => Result::Err(e),
            Result::Ok(own) => match add_children_x(l, schema, i + 1) {
                Result::Err(e) => Result::Err(e),
                Result::Ok(more) => {
                    let ghost vo = own@;
                    let ghost vm = more@;
                    let mut own = own;
                    append_stmts(&mut own, more);
                    proof {
                        lemma_stmts_view_add(vo, vm);
                    }
                    Result::Ok(own)
                },
            },
        }
    } else if l[i].attrs.is_some() && l[i].params.is_none() {
        match &l[i].attrs {
            Option::Some(sub) => match add_children_x(sub, schema, 0) {
                Result::Err(e) => Result::Err(e),
                Result::Ok(own) => match add_children_x(l, schema, i + 1) {
                    Result::Err(e) => Result::Err(e),
                    Result::Ok(more) => {
                        let ghost vo = own@;
                        let ghost vm = more@;
                        let mut own = own;
                        append_stmts(&mut own, more);
                        proof {
                            lemma_stmts_view_add(vo, vm);
                        }
                        Result::Ok(own)
                    },
                },
            },
            Option::None => Result::Err(TranslationError::InvalidShape),
        }
    } else {
        Result::Err(TranslationError::InvalidShape)
    }
}

fn set_from_x(l: &Vec<MutationObject>, i: usize) -> (r: Vec<Vec<u8>>)
    ensures
        stmts_view(r@) == set_from(crate::ast::m_view_list(l@), i as int),
    decreases l.len() - i,
{
    proof {
        crate::ast::lemma_m_view_list_len(l@);
        if i < l.len() {
            crate::ast::lemma_m_view_list_index(l@, i as int);
        }
    }
    if i >= l.len() {
        let r: Vec<Vec<u8>> = Vec::new();
        proof {
            assert(stmts_view(r@) =~= set_from(crate::ast::m_view_list(l@), i as int));
        }
        r
    } else {
        let mut rest = set_from_x(l, i + 1);
        match &l[i].value {
            Option::Some(v) => {
                let mut item = clone_bytes(&l[i].name);
                item.push(61);
                append_vec(&mut item, quote_val_x(v));
                proof {
                    assert(item@ =~= eq_item((l@[i as int].name@, v@)));
                }
                let ghost old_rest = rest@;
                rest.insert(0, item);
                proof {
                    lemma_stmts_view_insert(old_rest, rest[0]);
                }
            },
            Option::None => {},
        }
        rest
    }
}

fn upd_leaves_ok_x(l: &Vec<MutationObject>, cols: &Vec<FieldDef>, i: usize) -> (r: Result<
    (),
    TranslationError,
>)
    ensures
        upd_leaves_ok(crate::ast::m_view_list(l@), fields_view(cols@), i as int) == (match r {
            Result::Ok(u) => Result::<(), TranslationError>::Ok(()),
            Result::Err(e) => Result::<(), TranslationError>::Err(e),
        }),
    decreases l.len() - i,
{
    proof {
        crate::ast::lemma_m_view_list_len(l@);
        if i < l.len() {
            crate::ast::lemma_m_view_list_index(l@, i as int);
        }
    }
    if i >= l.len() {
        Result::Ok(())
    } else if l[i].value.is_none() || l[i].params.is_some() || l[i].attrs.is_some() {
        Result::Err(TranslationError::InvalidShape)
    } else if !has_col(cols, &l[i].name) {
        Result::Err(TranslationError::UnknownColumn)
    } else {
        upd_leaves_ok_x(l, cols, i + 1)
    }
}

/// Translate an update mutation into its `UPDATE` statement.
pub fn translate_update(t: &MutationObject, schema: &Schema) -> (r: Result<
    Vec<u8>,
    TranslationError,
>)
    ensures
        (match r {
            Result::Ok(v) => spec_translate_update(t@, schema.tables@)
                == Result::<Seq<u8>, TranslationError>::Ok(v@),
            Result::Err(e) => spec_translate_update(t@, schema.tables@)
                == Result::<Seq<u8>, TranslationError>::Err(e),
        }),
{
    match find_table(&schema.tables, &t.name) {
        Option::None => Result::Err(TranslationError::UnknownTable),
        Option::Some(ti) => {
            let cols = &schema.tables[ti].1;
            if t.value.is_some() {
                Result::Err(TranslationError::InvalidShape)
            } else {
                match &t.attrs {
                    Option::None => Result::Err(TranslationError::InvalidShape),
                    Option::Some(ats) => {
                        if ats.len() == 0 {
                            proof {
                                crate::ast::lemma_m_view_list_len(ats@);
                            }
                            Result::Err(TranslationError::InvalidShape)
                        } else {
                            proof {
                                crate::ast::lemma_m_view_list_len(ats@);
                            }
                            match upd_leaves_ok_x(ats, cols, 0) {
                                Result::Err(e) => Result::Err(e),
                                Result::Ok(u) => {
                                    if !params_ok_opt_x(&t.params, cols) {
                                        Result::Err(TranslationError::UnknownColumn)
                                    } else {
                                        let mut out = kw_update();
                                        append_vec(&mut out, clone_bytes(&t.name));
                                        append_vec(&mut out, kw_set_kw());
                                        let items = set_from_x(ats, 0);
                                        append_vec(&mut out, join_commas_x(&items, 0));
                                        append_vec(&mut out, where_x(&t.params));
                                        proof {
                                            assert(out@ =~= update_stmt(
                                                t@,
                                                crate::ast::m_view_list(ats@),
                                            ));
                                        }
                                        Result::Ok(out)
                                    }
                                },
                            }
                        }
                    },
                }
            }
        },
    }
}

/// Translate a delete mutation into its `DELETE` statement.
pub fn translate_delete(t: &MutationObject, schema: &Schema) -> (r: Result<
    Vec<u8>,
    TranslationError,
>)
    ensures
        (match r {
            Result::Ok(v) => spec_translate_delete(t@, schema.tables@)
                == Result::<Seq<u8>, TranslationError>::Ok(v@),
            Result::Err(e) => spec_translate_delete(t@, schema.tables@)
                == Result::<Seq<u8>, TranslationError>::Err(e),
        }),
{
    match find_table(&schema.tables, &t.name) {
        Option::None => Result::Err(TranslationError::UnknownTable),
        Option::Some(ti) => {
            let cols = &schema.tables[ti].1;
            if t.attrs.is_some() || t.value.is_some() {
                Result::Err(TranslationError::InvalidShape)
            } else if !params_ok_opt_x(&t.params, cols) {
                Result::Err(TranslationError::UnknownColumn)
            } else {
                let mut out = kw_delete_from();
                append_vec(&mut out, clone_bytes(&t.name));
                append_vec(&mut out, where_x(&t.params));
                proof {
                    assert(out@ =~= kws_delete_from() + t.name@ + where_clause(t@.params));
                }
                Result::Ok(out)
            }
        },
    }
}


// ---------------------------------------------------------------------
// Executable row rendering
// ---------------------------------------------------------------------
fn cells_x(f: &Vec<Vec<u8>>, row: &Vec<Vec<u8>>, i: usize) -> (r: Vec<u8>)
    ensures
        r@ == cells_from(stmts_view(f@), stmts_view(row@), i as int),
    decreases f.len() - i,
{
    proof {
        if i < f.len() {
            assert(stmts_view(f@)[i as int] == f@[i as int]@);
        }
        if i < row.len() {
            assert(stmts_view(row@)[i as int] == row@[i as int]@);
        }
    }
    if i >= f.len() || i >= row.len() {
        Vec::new()
    } else {
        let mut out = clone_bytes(&f[i]);
        out.push(58);
        out.push(34);
        append_vec(&mut out, clone_bytes(&row[i]));
        out.push(34);
        if i + 1 >= f.len() || i + 1 >= row.len() {
            proof {
                assert(out@ =~= stmts_view(f@)[i as int] + seq![58u8, 34u8]
                    + stmts_view(row@)[i as int] + seq![34u8]);
            }
            out
        } else {
            out.push(44);
            append_vec(&mut out, cells_x(f, row, i + 1));
            proof {
                assert(out@ =~= stmts_view(f@)[i as int] + seq![58u8, 34u8]
                    + stmts_view(row@)[i as int] + seq![34u8, 44u8] + cells_from(
                    stmts_view(f@),
                    stmts_view(row@),
                    i as int + 1,
                ));
            }
            out
        }
    }
}

fn row_obj_x(f: &Vec<Vec<u8>>, row: &Vec<Vec<u8>>) -> (r: Vec<u8>)
    ensures
        r@ == row_obj(stmts_view(f@), stmts_view(row@)),
{
    let mut out: Vec<u8> = Vec::new();
    out.push(123);
    append_vec(&mut out, cells_x(f, row, 0));
    out.push(125);
    proof {
        assert(out@ =~= row_obj(stmts_view(f@), stmts_view(row@)));
    }
    out
}

fn rows_part_x(f: &Vec<Vec<u8>>, rows: &Vec<Vec<Vec<u8>>>, i: usize) -> (r: Vec<u8>)
    ensures
        r@ == rows_from(stmts_view(f@), rows_view(rows@), i as int),
    decreases rows.len() - i,
{
    proof {
        if i < rows.len() {
            assert(rows_view(rows@)[i as int] == stmts_view(rows@[i as int]@));
        }
    }
    if i >= rows.len() {
        Vec::new()
    } else if i + 1 >= rows.len() {
        row_obj_x(f, &rows[i])
    } else {
        let mut out = row_obj_x(f, &rows[i]);
        out.push(44);
        append_vec(&mut out, rows_part_x(f, rows, i + 1));
        proof {
            assert(out@ =~= row_obj(stmts_view(f@), rows_view(rows@)[i as int]) + seq![44u8]
                + rows_from(stmts_view(f@), rows_view(rows@), i as int + 1));
        }
        out
    }
}

/// Render backend result rows into response text: an array of row
/// objects whose cells follow the requested field order.
pub fn render_response(fields: &Vec<Vec<u8>>, rows: &Vec<Vec<Vec<u8>>>) -> (r: Vec<u8>)
    ensures
        r@ == response_text(stmts_view(fields@), rows_view(rows@)),
{
    let mut out: Vec<u8> = Vec::new();
    out.push(91);
    append_vec(&mut out, rows_part_x(fields, rows, 0));
    out.push(93);
    proof {
        assert(out@ =~= response_text(stmts_view(fields@), rows_view(rows@)));
    }
    out
}

// ---------------------------------------------------------------------
// Executable bootstrap statements
// ---------------------------------------------------------------------
/// `CREATE DATABASE name`.
pub fn create_database(db: &Vec<u8>) -> (r: Vec<u8>)
    ensures
        r@ == kws_create_db() + db@,
{
    let mut out = kw_create_db();
    append_vec(&mut out, clone_bytes(db));
    out
}

/// `USE name`.
pub fn use_database(db: &Vec<u8>) -> (r: Vec<u8>)
    ensures
        r@ == kws_use_db() + db@,
{
    let mut out = kw_use_db();
    append_vec(&mut out, clone_bytes(db));
    out
}

fn coldefs_x(fs: &Vec<FieldDef>, i: usize) -> (r: Vec<Vec<u8>>)
    ensures
        stmts_view(r@) == coldefs_from(fields_view(fs@), i as int),
    decreases fs.len() - i,
{
    proof {
        if i < fs.len() {
            assert(fields_view(fs@)[i as int] == (fs@[i as int].0@, fs@[i as int].1@,
                fs@[i as int].2));
        }
    }
    if i >= fs.len() {
        let r: Vec<Vec<u8>> = Vec::new();
        proof {
            assert(stmts_view(r@) =~= coldefs_from(fields_view(fs@), i as int));
        }
        r
    } else {
        let mut item = clone_bytes(&fs[i].0);
        item.push(32);
        append_vec(&mut item, clone_bytes(&fs[i].1));
        proof {
            assert(item@ =~= fs@[i as int].0@ + seq![32u8] + fs@[i as int].1@);
        }
        let mut rest = coldefs_x(fs, i + 1);
        let ghost old_rest = rest@;
        rest.insert(0, item);
        proof {
            lemma_stmts_view_insert(old_rest, rest[0]);
        }
        rest
    }
}

/// `CREATE TABLE db.name (col type, ...)`.
pub fn create_table(db: &Vec<u8>, t: &ObjectDef) -> (r: Vec<u8>)
    ensures
        r@ == create_table_stmt(db@, (t.0@, fields_view(t.1@))),
{
    let mut out = kw_create_tbl();
    append_vec(&mut out, clone_bytes(db));
    out.push(46);
    append_vec(&mut out, clone_bytes(&t.0));
    out.push(32);
    out.push(40);
    let cols = coldefs_x(&t.1, 0);
    append_vec(&mut out, join_commas_x(&cols, 0));
    out.push(41);
    proof {
        assert(out@ =~= create_table_stmt(db@, (t.0@, fields_view(t.1@))));
    }
    out
}

/// The one-time bootstrap statements for a schema: create the database,
/// select it, and create each table in declaration order.
pub fn bootstrap_statements(schema: &Schema) -> (r: Vec<Vec<u8>>)
    ensures
        r@.len() == 2 + schema.tables@.len(),
        r@[0]@ == kws_create_db() + schema.database@,
        r@[1]@ == kws_use_db() + schema.database@,
        forall|i: int|
            0 <= i < schema.tables@.len() ==> r@[2 + i]@ == create_table_stmt(
                schema.database@,
                (#[trigger] schema.tables@[i].0@, fields_view(schema.tables@[i].1@)),
            ),
{
    let mut out: Vec<Vec<u8>> = Vec::new();
    out.push(create_database(&schema.database));
    out.push(use_database(&schema.database));
    let mut i: usize = 0;
    while i < schema.tables.len()
        invariant
            i <= schema.tables.len(),
            out@.len() == 2 + i,
            out@[0]@ == kws_create_db() + schema.database@,
            out@[1]@ == kws_use_db() + schema.database@,
            forall|j: int|
                0 <= j < i ==> out@[2 + j]@ == create_table_stmt(
                    schema.database@,
                    (#[trigger] schema.tables@[j].0@, fields_view(schema.tables@[j].1@)),
                ),
        decreases schema.tables.len() - i,
    {
        out.push(create_table(&schema.database, &schema.tables[i]));
        i = i + 1;
    }
    out
}

} // verus!
