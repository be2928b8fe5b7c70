//! The filter query language: a whitespace-separated list of terms
//! evaluated as a conjunction over a task record.
//!
//! Recognized terms are `status:<v>`, `project:<v>`, `+<tag>`,
//! `-WAITING` and `limit:<n|page>`; any other term is accepted and has
//! no effect, so the grammar stays forward-permissive.

use vstd::prelude::*;

use crate::task::TaskRecord;
use crate::text::{split_ws, split_whitespace, lower_seq, spec_starts_with,
    spec_contains_seq, spec_parse_u64, starts_with, contains_ignore_case, eq_ignore_case,
    str_eq, parse_u64};

verus! {

/// Does one filter term accept the record?
///
/// Terms are tried in the same order the evaluator tries them: a
/// `status:` prefix, then an exclusion (`-`), then `project:`, then
/// `limit:` (no predicate), then a tag requirement (`+`); anything
/// else is a no-op.
pub open spec fn spec_term_matches(rec: TaskRecord, term: Seq<char>) -> bool {
    if spec_starts_with(term, seq!['s', 't', 'a', 't', 'u', 's', ':']) {
        spec_contains_seq(lower_seq(rec.status.name_seq()), lower_seq(term.skip(7)))
    } else if term.len() > 1 && term[0] == '-' {
        if lower_seq(term.skip(1)) == seq!['w', 'a', 'i', 't', 'i', 'n', 'g'] {
            rec.wait is None
        } else {
            true
        }
    } else if spec_starts_with(term, seq!['p', 'r', 'o', 'j', 'e', 'c', 't', ':']) {
        match rec.project {
            Some(p) => spec_contains_seq(lower_seq(p@), lower_seq(term.skip(8))),
            None => false,
        }
    } else if spec_starts_with(term, seq!['l', 'i', 'm', 'i', 't', ':']) {
        true
    } else if term.len() >= 1 && term[0] == '+' {
        match rec.tags {
            Some(tags) => exists|i: int|
                0 <= i < tags@.len() && lower_seq(#[trigger] tags@[i]@) == lower_seq(
                    term.skip(1)),
            None => false,
        }
    } else {
        true
    }
}

/// Does the record pass every term of the filter string?
pub open spec fn spec_filter_matches(rec: TaskRecord, filter: Seq<char>) -> bool {
    forall|i: int|
        0 <= i < split_ws(filter).len() ==> spec_term_matches(rec, #[trigger] split_ws(
            filter)[i])
}

#[verifier::loop_isolation(false)]
fn term_matches(task: &TaskRecord, term: &str) -> (r: bool)
    ensures
        r == spec_term_matches(*task, term@),
{
    proof {
        reveal_strlit("status:");
        assert("status:"@ =~= seq!['s', 't', 'a', 't', 'u', 's', ':']);
        reveal_strlit("project:");
        assert("project:"@ =~= seq!['p', 'r', 'o', 'j', 'e', 'c', 't', ':']);
        reveal_strlit("limit:");
        assert("limit:"@ =~= seq!['l', 'i', 'm', 'i', 't', ':']);
        reveal_strlit("waiting");
        assert(lower_seq("waiting"@) =~= seq!['w', 'a', 'i', 't', 'i', 'n', 'g']);
    }
    let len = term.unicode_len();
    if starts_with(term, "status:") {
        let rest = term.substring_char(7, len);
        proof {
            assert(rest@ =~= term@.skip(7));
        }
        let status_name = task.status.name();
        contains_ignore_case(status_name.as_str(), rest)
    } else if len > 1 && term.get_char(0) == '-' {
        let rest = term.substring_char(1, len);
        proof {
            assert(rest@ =~= term@.skip(1));
        }
        if eq_ignore_case(rest, "waiting") {
            match &task.wait {
                Some(_) => false,
                None => true,
            }
        } else {
            true
        }
    } else if starts_with(term, "project:") {
        let rest = term.substring_char(8, len);
        proof {
            assert(rest@ =~= term@.skip(8));
        }
        match &task.project {
            Some(p) => contains_ignore_case(p.as_str(), rest),
            None => false,
        }
    } else if starts_with(term, "limit:") {
        true
    } else if len >= 1 && term.get_char(0) == '+' {
        let rest = term.substring_char(1, len);
        proof {
            assert(rest@ =~= term@.skip(1));
        }
        match &task.tags {
            Some(tags) => {
                let mut i: usize = 0;
                let n = tags.len();
                while i < n
                    invariant
                        i <= n,
                        n == tags@.len(),
                        task.tags matches Some(tg) && tg == *tags,
                        rest@ == term@.skip(1),
                        forall|k: int|
                            0 <= k < i ==> lower_seq(#[trigger] tags@[k]@) != lower_seq(
                                term@.skip(1)),
                    decreases n - i,
                {
                    if eq_ignore_case(tags[i].as_str(), rest) {
                        proof {
                            let tg = task.tags->Some_0;
                            assert(lower_seq(tg@[i as int]@) == lower_seq(term@.skip(1)));
                            assert(exists|k: int|
                                0 <= k < tg@.len() && lower_seq(#[trigger] tg@[k]@)
                                    == lower_seq(term@.skip(1)));
                        }
                        return true;
                    }
                    i += 1;
                }
                false
            },
            None => false,
        }
    } else {
        true
    }
}

/// Evaluates the whole filter string against one record: every term
/// must accept it.  An empty filter accepts every record.
pub fn task_matches_taskwarrior_filter(task: &TaskRecord, filter: &str) -> (r: bool)
    ensures
        r == spec_filter_matches(*task, filter@),
{
    let terms = split_whitespace(filter);
    let ghost term_views = split_ws(filter@);
    let mut i: usize = 0;
    let n = terms.len();
    while i < n
        invariant
            i <= n,
            n == terms@.len(),
            terms@.map_values(|t: String| t@) == term_views,
            term_views == split_ws(filter@),
            forall|k: int| 0 <= k < i ==> spec_term_matches(*task, term_views[k]),
        decreases n - i,
    {
        proof {
            assert(terms@.map_values(|t: String| t@)[i as int] == terms@[i as int]@);
        }
        if !term_matches(task, terms[i].as_str()) {
            return false;
        }
        i += 1;
    }
    true
}

/// The limit carried by one term: `limit:page` means 25, `limit:<n>`
/// means `n` when it parses and fits, and any other term carries none.
pub open spec fn spec_limit_of_term(term: Seq<char>) -> Option<usize> {
    if spec_starts_with(term, seq!['l', 'i', 'm', 'i', 't', ':']) {
        let v = term.skip(6);
        if v == seq!['p', 'a', 'g', 'e'] {
            Some(25usize)
        } else {
            match spec_parse_u64(v) {
                Some(n) => if n <= usize::MAX { Some(n as usize) } else { None },
                None => None,
            }
        }
    } else {
        None
    }
}

/// The limit of a term list: that of the first term carrying one.
pub open spec fn spec_extract_limit(terms: Seq<Seq<char>>) -> Option<usize>
    decreases terms.len(),
{
    if terms.len() == 0 {
        None
    } else {
        match spec_limit_of_term(terms[0]) {
            Some(n) => Some(n),
            None => spec_extract_limit(terms.drop_first()),
        }
    }
}

/// The limit directive carried by a filter string, if any.
pub open spec fn spec_filter_limit(filter: Seq<char>) -> Option<usize> {
    spec_extract_limit(split_ws(filter))
}

fn limit_of_term(term: &str) -> (r: Option<usize>)
    ensures
        r == spec_limit_of_term(term@),
{
    proof {
        reveal_strlit("limit:");
        assert("limit:"@ =~= seq!['l', 'i', 'm', 'i', 't', ':']);
    }
    let len = term.unicode_len();
    if starts_with(term, "limit:") {
        let v = term.substring_char(6, len);
        proof {
            assert(v@ =~= term@.skip(6));
            reveal_strlit("page");
            assert("page"@ =~= seq!['p', 'a', 'g', 'e']);
        }
        if str_eq(v, "page") {
            Some(25)
        } else {
            match parse_u64(v) {
                Some(n) => {
                    if n <= (usize::MAX as u64) {
                        Some(n as usize)
                    } else {
                        None
                    }
                },
                None => None,
            }
        }
    } else {
        None
    }
}

/// Extracts the limit directive from a filter string: `Some(25)` for
/// `limit:page`, `Some(n)` for a numeric `limit:n`, `None` when no
/// term carries a limit.
pub fn extract_limit_from_filter(filter: &str) -> (r: Option<usize>)
    ensures
        r == spec_filter_limit(filter@),
{
    let terms = split_whitespace(filter);
    let ghost term_views = split_ws(filter@);
    let mut i: usize = 0;
    let n = terms.len();
    proof {
        assert(term_views.skip(0) =~= term_views);
    }
    while i < n
        invariant
            i <= n,
            n == terms@.len(),
            terms@.map_values(|t: String| t@) == term_views,
            term_views == split_ws(filter@),
            spec_extract_limit(term_views.skip(i as int)) == spec_extract_limit(term_views),
            forall|k: int| 0 <= k < i ==> spec_limit_of_term(term_views[k]) is None,
        decreases n - i,
    {
        proof {
            assert(terms@.map_values(|t: String| t@)[i as int] == terms@[i as int]@);
        }
        let lim = limit_of_term(terms[i].as_str());
        proof {
            let rest = term_views.skip(i as int);
            assert(rest[0] == term_views[i as int]);
            assert(rest.drop_first() =~= term_views.skip(i + 1));
        }
        if let Some(n) = lim {
            return Some(n);
        }
        i += 1;
    }
    proof {
        assert(term_views.skip(n as int) =~= Seq::<Seq<char>>::empty());
    }
    None
}

/// The limit a filter yields does not depend on where its limit term
/// stands among the other terms: any term carrying a limit determines
/// the result, as long as no second term carries one, and with no term
/// carrying one the filter yields none.
pub proof fn lemma_extract_limit_order_independent(terms: Seq<Seq<char>>)
    requires
        forall|i: int, j: int|
            0 <= i < j < terms.len() ==> !(spec_limit_of_term(#[trigger] terms[i]) is Some
                && spec_limit_of_term(#[trigger] terms[j]) is Some),
    ensures
        forall|i: int|
            0 <= i < terms.len() && spec_limit_of_term(#[trigger] terms[i]) is Some
                ==> spec_extract_limit(terms) == spec_limit_of_term(terms[i]),
        (forall|i: int| 0 <= i < terms.len() ==> spec_limit_of_term(#[trigger] terms[i]) is None)
            ==> spec_extract_limit(terms) is None,
    decreases terms.len(),
{
    if terms.len() == 0 {
    } else {
        let rest = terms.drop_first();
        assert forall|i: int, j: int|
            0 <= i < j < rest.len() implies !(spec_limit_of_term(#[trigger] rest[i]) is Some
                && spec_limit_of_term(#[trigger] rest[j]) is Some) by {
            assert(rest[i] == terms[i + 1]);
            assert(rest[j] == terms[j + 1]);
        }
        lemma_extract_limit_order_independent(rest);
        assert forall|i: int|
            0 <= i < terms.len() && spec_limit_of_term(#[trigger] terms[i]) is Some
                implies spec_extract_limit(terms) == spec_limit_of_term(terms[i]) by {
            if i == 0 {
            } else {
                assert(rest[i - 1] == terms[i]);
                assert(spec_limit_of_term(terms[0]) is None);
            }
        }
        if forall|i: int| 0 <= i < terms.len() ==> spec_limit_of_term(#[trigger] terms[i])
            is None {
            assert(spec_limit_of_term(terms[0]) is None);
            assert forall|i: int| 0 <= i < rest.len() implies spec_limit_of_term(
                #[trigger] rest[i]) is None by {
                assert(rest[i] == terms[i + 1]);
            }
        }
    }
}

/// Records that pass the filter, in their original order.
pub open spec fn spec_filtered(records: Seq<TaskRecord>, filter: Seq<char>) -> Seq<TaskRecord> {
    records.filter(|r: TaskRecord| spec_filter_matches(r, filter))
}

/// An empty filter string is the identity on any record list: it has
/// no terms, so its conjunction accepts every record.
pub proof fn lemma_empty_filter_identity(records: Seq<TaskRecord>)
    ensures
        spec_filtered(records, Seq::empty()) == records,
    decreases records.len(),
{
    reveal(Seq::filter);
    assert(split_ws(Seq::empty()).len() == 0);
    if records.len() == 0 {
        assert(spec_filtered(records, Seq::empty()) =~= records);
    } else {
        lemma_empty_filter_identity(records.drop_last());
        assert(spec_filter_matches(records.last(), Seq::empty()));
        assert(spec_filtered(records, Seq::empty()) =~= records);
    }
}

/// Keeps the records that pass the filter.  With an empty filter the
/// result is the input list unchanged.
pub fn filter_tasks(records: Vec<TaskRecord>, filter: &str) -> (r: Vec<TaskRecord>)
    ensures
        r@ == spec_filtered(records@, filter@),
        split_ws(filter@).len() == 0 ==> r@ == records@,
{
    let ghost pred = |rec: TaskRecord| spec_filter_matches(rec, filter@);
    let ghost orig = records@;
    let mut records = records;
    let n0 = records.len();
    let mut out: Vec<TaskRecord> = Vec::new();
    let mut i: usize = 0;
    proof {
        reveal(Seq::filter);
        assert(orig.subrange(0, 0) =~= Seq::<TaskRecord>::empty());
        assert(orig.skip(0) =~= orig);
    }
    while records.len() > 0
        invariant
            i <= orig.len(),
            orig.len() == n0,
            pred == (|rec: TaskRecord| spec_filter_matches(rec, filter@)),
            records@ == orig.skip(i as int),
            out@ == orig.subrange(0, i as int).filter(pred),
            split_ws(filter@).len() == 0 ==> out@ == orig.subrange(0, i as int),
        decreases records@.len(),
    {
        let rec = records.remove(0);
        proof {
            assert(orig.skip(i as int).remove(0) =~= orig.skip(i + 1));
            assert(rec == orig[i as int]);
        }
        let keep = task_matches_taskwarrior_filter(&rec, filter);
        proof {
            let pre = orig.subrange(0, i as int);
            let cur = orig.subrange(0, i + 1);
            assert(cur.drop_last() =~= pre);
            assert(cur.last() == orig[i as int]);
            reveal(Seq::filter);
        }
        if keep {
            out.push(rec);
        }
        i += 1;
    }
    proof {
        assert(orig.skip(i as int).len() == 0);
        assert(orig.subrange(0, i as int) =~= orig);
    }
    out
}

} // verus!
