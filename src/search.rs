//! Selection of listed variables by keywords, remark and scope.

use vstd::prelude::*;

use crate::store::{tag_of, EnvironmentVariable};
use crate::text::{chars_of, contains_chars, lower_of, occurs_in, to_lower};

verus! {

/// A span of time in seconds. Carried by a query, not applied.
#[derive(Clone, Copy, Debug, PartialEq, Eq, Structural)]
pub struct DateRange {
    pub start: u64,
    pub end: u64,
}

/// What a search asks for; an absent part asks for nothing.
#[derive(Debug)]
pub struct SearchQuery {
    pub name_keyword: Option<String>,
    pub value_keyword: Option<String>,
    pub remark_keyword: Option<String>,
    pub types: Option<Vec<String>>,
    pub date_range: Option<DateRange>,
}

/// Whether `keyword` occurs in `field`, ignoring case.
pub open spec fn folded_in(keyword: Seq<char>, field: Seq<char>) -> bool {
    occurs_in(lower_of(keyword), lower_of(field))
}

/// Whether the keyword is given and occurs in the name or in the value.
pub open spec fn keyword_hits(keyword: Option<String>, e: EnvironmentVariable) -> bool {
    keyword matches Some(k) && (folded_in(k@, e.name@) || folded_in(k@, e.value@))
}

/// With a name or a value keyword, one of them must occur in the name or the value.
pub open spec fn keyword_gate(q: SearchQuery, e: EnvironmentVariable) -> bool {
    if q.name_keyword is Some || q.value_keyword is Some {
        keyword_hits(q.name_keyword, e) || keyword_hits(q.value_keyword, e)
    } else {
        true
    }
}

/// With a remark keyword, the variable must have a remark that holds it.
pub open spec fn remark_gate(q: SearchQuery, e: EnvironmentVariable) -> bool {
    match q.remark_keyword {
        Some(k) => e.remark matches Some(r) && folded_in(k@, r@),
        None => true,
    }
}

/// With a list of scope tags, the variable's tag must be among them.
pub open spec fn type_gate(q: SearchQuery, e: EnvironmentVariable) -> bool {
    match q.types {
        Some(ts) => exists|i: int| 0 <= i < ts@.len() && (#[trigger] ts@[i])@ == tag_of(e.var_type),
        None => true,
    }
}

/// Whether `e` answers `q`. The date range is not applied.
pub open spec fn matches_query(q: SearchQuery, e: EnvironmentVariable) -> bool {
    keyword_gate(q, e) && remark_gate(q, e) && type_gate(q, e)
}

/// The variables of `vars` that answer `q`, in their order.
pub open spec fn selected(q: SearchQuery, vars: Seq<EnvironmentVariable>) -> Seq<EnvironmentVariable> {
    vars.filter(|e: EnvironmentVariable| matches_query(q, e))
}

/// Whether `keyword` occurs in `field`, ignoring case.
fn folded_contains(keyword: &String, field: &String) -> (r: bool)
    ensures
        r == folded_in(keyword@, field@),
{
    let k = to_lower(keyword.as_str());
    let f = to_lower(field.as_str());
    contains_chars(&chars_of(f.as_str()), &chars_of(k.as_str()))
}

fn hits(keyword: &Option<String>, e: &EnvironmentVariable) -> (r: bool)
    ensures
        r == keyword_hits(*keyword, *e),
{
    match keyword {
        Some(k) => folded_contains(k, &e.name) || folded_contains(k, &e.value),
        None => false,
    }
}

/// Whether `e` answers `q`.
pub fn is_match(q: &SearchQuery, e: &EnvironmentVariable) -> (r: bool)
    ensures
        r == matches_query(*q, *e),
{
    let keyword_ok = if q.name_keyword.is_some() || q.value_keyword.is_some() {
        hits(&q.name_keyword, e) || hits(&q.value_keyword, e)
    } else {
        true
    };
    let remark_ok = match &q.remark_keyword {
        Some(k) => match &e.remark {
            Some(r) => folded_contains(k, r),
            None => false,
        },
        None => true,
    };
    let type_ok = match &q.types {
        Some(ts) => {
            let tag = e.var_type.tag();
            let mut found = false;
            let mut i: usize = 0;
            while i < ts.len()
                invariant
                    i <= ts.len(),
                    tag@ == tag_of(e.var_type),
                    found == exists|t: int| 0 <= t < i && (#[trigger] ts@[t])@ == tag@,
                decreases ts.len() - i,
            {
                if ts[i] == tag {
                    found = true;
                }
                i += 1;
            }
            found
        },
        None => true,
    };
    keyword_ok && remark_ok && type_ok
}

/// The variables of `variables` that answer `query`, in their order.
pub fn search_environment_variables(
    variables: &Vec<EnvironmentVariable>,
    query: &SearchQuery,
) -> (r: Vec<EnvironmentVariable>)
    ensures
        r@ == selected(*query, variables@),
{
    let mut r: Vec<EnvironmentVariable> = Vec::new();
    let mut k: usize = 0;
    while k < variables.len()
        invariant
            k <= variables.len(),
            r@ == selected(*query, variables@.subrange(0, k as int)),
        decreases variables.len() - k,
    {
        proof {
            reveal(Seq::filter);
        }
        assert(variables@.subrange(0, k + 1).drop_last() =~= variables@.subrange(0, k as int));
        if is_match(query, &variables[k]) {
            r.push(variables[k].clone());
        }
        k += 1;
    }
    assert(variables@.subrange(0, variables.len() as int) =~= variables@);
    r
}

/// A query with only a name keyword selects the variables whose name or value holds
/// it, ignoring case, whatever their remarks.
pub proof fn lemma_name_keyword_query(q: SearchQuery, e: EnvironmentVariable)
    requires
        q.name_keyword is Some,
        q.value_keyword is None,
        q.remark_keyword is None,
        q.types is None,
    ensures
        matches_query(q, e) == (folded_in(q.name_keyword->0@, e.name@) || folded_in(
            q.name_keyword->0@,
            e.value@,
        )),
{
}

} // verus!
