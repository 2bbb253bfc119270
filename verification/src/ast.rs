//! Syntax-tree model: the two node families produced by parsing read
//! queries and mutations, their mathematical views, and the
//! well-formedness conditions that parsed trees satisfy.

use vstd::prelude::*;

verus! {

/// A parsed read-query node: a named field, an optional ordered list of
/// `(key, value)` parameters and an optional ordered list of child
/// selections.  `params == None` means no filter; `attrs == None` means
/// the node is a scalar field, which is distinct from `attrs ==
/// Some(empty list)` (an object with no sub-selections).
#[derive(PartialEq, Eq, Debug)]
pub struct QueryObject {
    pub name: Vec<u8>,
    pub params: Option<Vec<(Vec<u8>, Vec<u8>)>>,
    pub attrs: Option<Vec<QueryObject>>,
}

/// A parsed mutation node: like a query node, with an optional scalar
/// `value` (used for field assignments such as `age: 4`).
#[derive(PartialEq, Eq, Debug)]
pub struct MutationObject {
    pub name: Vec<u8>,
    pub value: Option<Vec<u8>>,
    pub params: Option<Vec<(Vec<u8>, Vec<u8>)>>,
    pub attrs: Option<Vec<MutationObject>>,
}

/// Mathematical view of a `QueryObject`.
pub ghost struct QTree {
    pub name: Seq<u8>,
    pub params: Option<Seq<(Seq<u8>, Seq<u8>)>>,
    pub attrs: Option<Seq<QTree>>,
}

/// Mathematical view of a `MutationObject`.
pub ghost struct MTree {
    pub name: Seq<u8>,
    pub value: Option<Seq<u8>>,
    pub params: Option<Seq<(Seq<u8>, Seq<u8>)>>,
    pub attrs: Option<Seq<MTree>>,
}

pub open spec fn params_view(ps: Seq<(Vec<u8>, Vec<u8>)>) -> Seq<(Seq<u8>, Seq<u8>)> {
    ps.map_values(|p: (Vec<u8>, Vec<u8>)| (p.0@, p.1@))
}

pub open spec fn q_view_list(s: Seq<QueryObject>) -> Seq<QTree>
    decreases s,
{
    if s.len() == 0 {
        Seq::empty()
    } else {
        seq![s[0]@] + q_view_list(s.drop_first())
    }
}

pub open spec fn m_view_list(s: Seq<MutationObject>) -> Seq<MTree>
    decreases s,
{
    if s.len() == 0 {
        Seq::empty()
    } else {
        seq![s[0]@] + m_view_list(s.drop_first())
    }
}

impl View for QueryObject {
    type V = QTree;

    open spec fn view(&self) -> QTree
        decreases self,
    {
        QTree {
            name: self.name@,
            params: match self.params {
                Option::None => Option::None,
                Option::Some(ps) => Option::Some(params_view(ps@)),
            },
            attrs: match self.attrs {
                Option::None => Option::None,
                Option::Some(ats) => Option::Some(q_view_list(ats@)),
            },
        }
    }
}

impl View for MutationObject {
    type V = MTree;

    open spec fn view(&self) -> MTree
        decreases self,
    {
        MTree {
            name: self.name@,
            value: match self.value {
                Option::None => Option::None,
                Option::Some(v) => Option::Some(v@),
            },
            params: match self.params {
                Option::None => Option::None,
                Option::Some(ps) => Option::Some(params_view(ps@)),
            },
            attrs: match self.attrs {
                Option::None => Option::None,
                Option::Some(ats) => Option::Some(m_view_list(ats@)),
            },
        }
    }
}

pub proof fn lemma_q_view_list_index(s: Seq<QueryObject>, i: int)
    requires
        0 <= i < s.len(),
    ensures
        q_view_list(s).len() == s.len(),
        q_view_list(s)[i] == s[i]@,
    decreases s,
{
    lemma_q_view_list_len(s.drop_first());
    let head = seq![s[0]@];
    let tail = q_view_list(s.drop_first());
    assert(q_view_list(s) == head + tail);
    assert(head.len() == 1);
    if i > 0 {
        lemma_q_view_list_index(s.drop_first(), i - 1);
        assert(s.drop_first()[i - 1] == s[i]);
        assert((head + tail)[i] == tail[i - 1]);
    } else {
        assert((head + tail)[0] == head[0]);
    }
}

pub proof fn lemma_q_view_list_len(s: Seq<QueryObject>)
    ensures
        q_view_list(s).len() == s.len(),
    decreases s,
{
    if s.len() > 0 {
        lemma_q_view_list_len(s.drop_first());
        assert(q_view_list(s) == seq![s[0]@] + q_view_list(s.drop_first()));
        assert(seq![s[0]@].len() == 1);
    }
}

pub proof fn lemma_m_view_list_index(s: Seq<MutationObject>, i: int)
    requires
        0 <= i < s.len(),
    ensures
        m_view_list(s).len() == s.len(),
        m_view_list(s)[i] == s[i]@,
    decreases s,
{
    lemma_m_view_list_len(s.drop_first());
    let head = seq![s[0]@];
    let tail = m_view_list(s.drop_first());
    assert(m_view_list(s) == head + tail);
    assert(head.len() == 1);
    if i > 0 {
        lemma_m_view_list_index(s.drop_first(), i - 1);
        assert(s.drop_first()[i - 1] == s[i]);
        assert((head + tail)[i] == tail[i - 1]);
    } else {
        assert((head + tail)[0] == head[0]);
    }
}

pub proof fn lemma_m_view_list_len(s: Seq<MutationObject>)
    ensures
        m_view_list(s).len() == s.len(),
    decreases s,
{
    if s.len() > 0 {
        lemma_m_view_list_len(s.drop_first());
        assert(m_view_list(s) == seq![s[0]@] + m_view_list(s.drop_first()));
        assert(seq![s[0]@].len() == 1);
    }
}

/// Bytes accepted in bare identifier and value tokens.
pub open spec fn is_alnum(b: u8) -> bool {
    (48 <= b && b <= 57) || (65 <= b && b <= 90) || (97 <= b && b <= 122)
}

/// Whitespace that may stand between tokens.
pub open spec fn is_ms(b: u8) -> bool {
    b == 32 || b == 9 || b == 10 || b == 13
}

/// Space or tab only.
pub open spec fn is_sp(b: u8) -> bool {
    b == 32 || b == 9
}

/// A token that can be written bare: one or more alphanumeric bytes.
pub open spec fn bare_ok(s: Seq<u8>) -> bool {
    s.len() > 0 && forall|i: int| 0 <= i < s.len() ==> is_alnum(#[trigger] s[i])
}

/// A name or value that can be written at all: quoting covers any byte
/// string that does not itself contain a double quote.
pub open spec fn name_ok(s: Seq<u8>) -> bool {
    forall|i: int| 0 <= i < s.len() ==> #[trigger] s[i] != 34
}

pub open spec fn params_ok(ps: Seq<(Seq<u8>, Seq<u8>)>) -> bool {
    forall|i: int| 0 <= i < ps.len() ==> bare_ok(#[trigger] ps[i].0) && bare_ok(ps[i].1)
}

impl QTree {
    /// Well-formedness: every tree a successful parse produces satisfies
    /// this, and every tree satisfying it can be rendered canonically.
    pub open spec fn wf(self) -> bool
        decreases self,
    {
        &&& name_ok(self.name)
        &&& match self.params {
            Option::None => true,
            Option::Some(ps) => params_ok(ps),
        }
        &&& match self.attrs {
            Option::None => true,
            Option::Some(ats) => qtrees_wf(ats),
        }
    }
}

pub open spec fn qtrees_wf(s: Seq<QTree>) -> bool
    decreases s,
{
    if s.len() == 0 {
        true
    } else {
        s[0].wf() && qtrees_wf(s.drop_first())
    }
}

impl MTree {
    pub open spec fn wf(self) -> bool
        decreases self,
    {
        &&& name_ok(self.name)
        &&& match self.value {
            Option::None => true,
            Option::Some(v) => name_ok(v),
        }
        &&& match self.params {
            Option::None => true,
            Option::Some(ps) => params_ok(ps),
        }
        &&& match self.attrs {
            Option::None => true,
            Option::Some(ats) => mtrees_wf(ats),
        }
    }
}

pub open spec fn mtrees_wf(s: Seq<MTree>) -> bool
    decreases s,
{
    if s.len() == 0 {
        true
    } else {
        s[0].wf() && mtrees_wf(s.drop_first())
    }
}

pub proof fn lemma_qtrees_wf_index(s: Seq<QTree>, i: int)
    requires
        qtrees_wf(s),
        0 <= i < s.len(),
    ensures
        s[i].wf(),
    decreases s,
{
    if i > 0 {
        lemma_qtrees_wf_index(s.drop_first(), i - 1);
    }
}

pub proof fn lemma_mtrees_wf_index(s: Seq<MTree>, i: int)
    requires
        mtrees_wf(s),
        0 <= i < s.len(),
    ensures
        s[i].wf(),
    decreases s,
{
    if i > 0 {
        lemma_mtrees_wf_index(s.drop_first(), i - 1);
    }
}

} // verus!
