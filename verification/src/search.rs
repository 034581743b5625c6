//! The search-term query: join the `keyword_search_terms` table to the
//! `urls` table on the URL id, keep only rows whose URL entry has a
//! strictly positive visit count, group the remaining rows by normalized
//! term, sum the counts and take the latest visit time of each group,
//! decode the aggregates (the sum as a 32-bit unsigned integer, the time
//! through the timestamp converter, groups that do not decode silently
//! dropped), and order the records by last visit time, most recent first.

use vstd::prelude::*;

use crate::rows::{SearchTermRow, UrlRow};
use crate::timestamp::Timestamp;
use crate::timestamp::convert_timestamp;
use crate::timestamp::spec_convert;

verus! {

/// One aggregated search-term entry.
#[derive(Debug)]
pub struct SearchRecord {
    /// Canonical text of the search query.
    pub normalized_term: String,
    /// Sum of the visit counts of the term's URL entries.
    pub visit_count: u32,
    /// The most recent last-visit time among the term's URL entries.
    pub last_visit_time: Timestamp,
}

/// The fields of a record as mathematical values: term characters, count,
/// instant.
pub open spec fn search_rec_view(r: SearchRecord) -> (Seq<char>, u32, Timestamp) {
    (r.normalized_term@, r.visit_count, r.last_visit_time)
}

/// A sequence of records, field-wise.
pub open spec fn search_views(rs: Seq<SearchRecord>) -> Seq<(Seq<char>, u32, Timestamp)> {
    rs.map_values(|r: SearchRecord| search_rec_view(r))
}

/// A search-term row joins a URL row when both ids are present and equal,
/// the term has text, and the URL entry carries a strictly positive visit
/// count and a last-visit time.
pub open spec fn search_join_ok(t: SearchTermRow, u: UrlRow) -> bool {
    &&& t.url_id is Some
    &&& t.normalized_term is Some
    &&& u.id is Some
    &&& u.id.unwrap() == t.url_id.unwrap()
    &&& u.visit_count is Some
    &&& u.visit_count.unwrap() > 0
    &&& u.last_visit_time is Some
}

/// The raw aggregation input a joined pair yields: term characters, visit
/// count, last-visit time in store microseconds.
pub open spec fn joined_search_fields(t: SearchTermRow, u: UrlRow) -> (Seq<char>, int, int)
    recommends
        search_join_ok(t, u),
{
    (t.normalized_term.unwrap()@, u.visit_count.unwrap() as int, u.last_visit_time.unwrap() as int)
}

/// The joined rows one search-term row contributes, one per matching URL
/// row, in table order.
pub open spec fn term_matches(t: SearchTermRow, urls: Seq<UrlRow>) -> Seq<(Seq<char>, int, int)>
    decreases urls.len(),
{
    if urls.len() == 0 {
        Seq::empty()
    } else {
        term_matches(t, urls.drop_last()) + (if search_join_ok(t, urls.last()) {
            seq![joined_search_fields(t, urls.last())]
        } else {
            Seq::empty()
        })
    }
}

/// All joined rows, term rows in table order.
pub open spec fn joined_terms(terms: Seq<SearchTermRow>, urls: Seq<UrlRow>) -> Seq<
    (Seq<char>, int, int),
>
    decreases terms.len(),
{
    if terms.len() == 0 {
        Seq::empty()
    } else {
        joined_terms(terms.drop_last(), urls) + term_matches(terms.last(), urls)
    }
}

/// The distinct terms among the joined rows, in order of first occurrence.
pub open spec fn group_keys(rows: Seq<(Seq<char>, int, int)>) -> Seq<Seq<char>>
    decreases rows.len(),
{
    if rows.len() == 0 {
        Seq::empty()
    } else {
        let g = group_keys(rows.drop_last());
        if g.contains(rows.last().0) {
            g
        } else {
            g.push(rows.last().0)
        }
    }
}

/// Sum of the visit counts of the rows with the given term.
pub open spec fn count_sum_for(rows: Seq<(Seq<char>, int, int)>, term: Seq<char>) -> int
    decreases rows.len(),
{
    if rows.len() == 0 {
        0
    } else {
        count_sum_for(rows.drop_last(), term) + (if rows.last().0 == term {
            rows.last().1
        } else {
            0
        })
    }
}

/// Stands below every last-visit time a row can hold.
pub open spec fn no_visit_time() -> int {
    i64::MIN - 1
}

/// Largest last-visit time of the rows with the given term;
/// `no_visit_time()` when there is none.
pub open spec fn max_time_for(rows: Seq<(Seq<char>, int, int)>, term: Seq<char>) -> int
    decreases rows.len(),
{
    if rows.len() == 0 {
        no_visit_time()
    } else {
        let m = max_time_for(rows.drop_last(), term);
        if rows.last().0 == term && rows.last().2 > m {
            rows.last().2
        } else {
            m
        }
    }
}

/// One aggregate per distinct term, in order of first occurrence: the
/// term, the summed count, the latest visit time.
pub open spec fn search_groups(rows: Seq<(Seq<char>, int, int)>) -> Seq<(Seq<char>, int, int)> {
    group_keys(rows).map_values(
        |t: Seq<char>| (t, count_sum_for(rows, t), max_time_for(rows, t)),
    )
}

/// Decode each aggregate: the sum must fit a 32-bit unsigned integer and
/// the time must convert; aggregates that do not decode are dropped.
pub open spec fn decode_groups(gs: Seq<(Seq<char>, int, int)>) -> Seq<(Seq<char>, u32, Timestamp)>
    decreases gs.len(),
{
    if gs.len() == 0 {
        Seq::empty()
    } else {
        decode_groups(gs.drop_last()) + (if 0 <= gs.last().1 <= u32::MAX && spec_convert(
            gs.last().2,
        ) is Some {
            seq![(gs.last().0, gs.last().1 as u32, spec_convert(gs.last().2).unwrap())]
        } else {
            Seq::empty()
        })
    }
}

/// Insertion into a time-descending sequence; an equal time goes after
/// the elements already there.
pub open spec fn insert_time_desc(
    x: (Seq<char>, u32, Timestamp),
    s: Seq<(Seq<char>, u32, Timestamp)>,
) -> Seq<(Seq<char>, u32, Timestamp)>
    decreases s.len(),
{
    if s.len() == 0 {
        seq![x]
    } else if x.2.micros_since_unix_epoch > s[0].2.micros_since_unix_epoch {
        seq![x] + s
    } else {
        seq![s[0]] + insert_time_desc(x, s.drop_first())
    }
}

/// Sort by last-visit time, most recent first.
pub open spec fn sort_time_desc(s: Seq<(Seq<char>, u32, Timestamp)>) -> Seq<
    (Seq<char>, u32, Timestamp),
>
    decreases s.len(),
{
    if s.len() == 0 {
        Seq::empty()
    } else {
        insert_time_desc(s.last(), sort_time_desc(s.drop_last()))
    }
}

/// What `get_search_records` returns for given table contents.
pub open spec fn spec_search_records(terms: Seq<SearchTermRow>, urls: Seq<UrlRow>) -> Seq<
    (Seq<char>, u32, Timestamp),
> {
    sort_time_desc(decode_groups(search_groups(joined_terms(terms, urls))))
}

/// Last-visit times never increase along the sequence.
pub open spec fn times_sorted_desc(s: Seq<(Seq<char>, u32, Timestamp)>) -> bool {
    forall|a: int, b: int|
        0 <= a < b < s.len() ==> s[a].2.micros_since_unix_epoch >= s[b].2.micros_since_unix_epoch
}

/// One joined row, decoded as far as joining goes: the count is known
/// positive, the time still in store microseconds.
struct SearchHit {
    term: String,
    count: u64,
    time: i64,
}

spec fn hit_view(h: SearchHit) -> (Seq<char>, int, int) {
    (h.term@, h.count as int, h.time as int)
}

spec fn hit_views(hs: Seq<SearchHit>) -> Seq<(Seq<char>, int, int)> {
    hs.map_values(|h: SearchHit| hit_view(h))
}

/// One group accumulator. `count_sum` equals the group's true sum as long
/// as that sum fits a 32-bit unsigned integer, and otherwise stays above
/// that bound without necessarily being exact.
struct TermGroup {
    term: String,
    count_sum: u64,
    max_time: i64,
}

spec fn groups_match(groups: Seq<TermGroup>, gs: Seq<(Seq<char>, int, int)>) -> bool {
    &&& groups.len() == gs.len()
    &&& forall|k: int| 0 <= k < gs.len() ==> (#[trigger] groups[k]).term@ == gs[k].0
    &&& forall|k: int| 0 <= k < gs.len() ==> (#[trigger] groups[k]).max_time as int == gs[k].2
    &&& forall|k: int|
        0 <= k < gs.len() ==> ((gs[k].1 <= u32::MAX ==> (#[trigger] groups[k]).count_sum as int
            == gs[k].1) && (gs[k].1 > u32::MAX ==> groups[k].count_sum > u32::MAX))
}

/// Aggregation yields one aggregate per distinct term: no term occurs
/// twice among the group keys.
pub proof fn lemma_group_keys_distinct(rows: Seq<(Seq<char>, int, int)>)
    ensures
        forall|a: int, b: int|
            0 <= a < b < group_keys(rows).len() ==> group_keys(rows)[a] != group_keys(rows)[b],
    decreases rows.len(),
{
    if rows.len() > 0 {
        lemma_group_keys_distinct(rows.drop_last());
        let g = group_keys(rows.drop_last());
        if !g.contains(rows.last().0) {
            assert forall|a: int, b: int|
                0 <= a < b < group_keys(rows).len() implies group_keys(rows)[a] != group_keys(
                rows,
            )[b] by {
                if b == g.len() {
                    assert(g[a] == group_keys(rows)[a]);
                    assert(!g.contains(rows.last().0));
                    assert(g.contains(g[a]));
                }
            }
        }
    }
}

/// A term that is no group key has no contributing rows.
proof fn lemma_absent_key(rows: Seq<(Seq<char>, int, int)>, term: Seq<char>)
    requires
        !group_keys(rows).contains(term),
    ensures
        count_sum_for(rows, term) == 0,
        max_time_for(rows, term) == no_visit_time(),
    decreases rows.len(),
{
    if rows.len() > 0 {
        let g = group_keys(rows.drop_last());
        if g.contains(term) {
            let w = choose|w: int| 0 <= w < g.len() && g[w] == term;
            if g.contains(rows.last().0) {
                assert(group_keys(rows)[w] == term);
                assert(group_keys(rows).contains(term));
            } else {
                assert(group_keys(rows)[w] == term);
                assert(group_keys(rows).contains(term));
            }
            assert(false);
        }
        if rows.last().0 == term {
            if g.contains(rows.last().0) {
                assert(group_keys(rows).contains(term));
            } else {
                assert(group_keys(rows).last() == term);
                assert(group_keys(rows).contains(term));
            }
            assert(false);
        }
        lemma_absent_key(rows.drop_last(), term);
    }
}

/// Find the accumulator of a term, if there is one.
fn find_term(groups: &Vec<TermGroup>, term: &String) -> (r: Option<usize>)
    ensures
        match r {
            Some(k) => k < groups@.len() && groups@[k as int].term@ == term@,
            None => forall|k: int| 0 <= k < groups@.len() ==> (#[trigger] groups@[k]).term@ != term@,
        },
{
    let mut i: usize = 0;
    while i < groups.len()
        invariant
            i <= groups@.len(),
            forall|k: int| 0 <= k < i ==> (#[trigger] groups@[k]).term@ != term@,
        decreases groups@.len() - i,
    {
        if groups[i].term == *term {
            return Some(i);
        }
        i += 1;
    }
    None
}

/// Aggregate joined rows by term: sum the counts (exactly while the sum
/// fits a 32-bit unsigned integer) and keep the latest visit time.
fn group_search_hits(hits: &Vec<SearchHit>) -> (groups: Vec<TermGroup>)
    ensures
        groups_match(groups@, search_groups(hit_views(hits@))),
{
    let mut groups: Vec<TermGroup> = Vec::new();
    let mut i: usize = 0;
    while i < hits.len()
        invariant
            i <= hits@.len(),
            groups_match(groups@, search_groups(hit_views(hits@.take(i as int)))),
        decreases hits@.len() - i,
    {
        let ghost rows = hit_views(hits@.take(i as int));
        let ghost rows1 = hit_views(hits@.take(i + 1));
        let ghost gs = search_groups(rows);
        let ghost gs1 = search_groups(rows1);
        proof {
            lemma_group_keys_distinct(rows);
            assert(rows1.drop_last() =~= rows);
            assert(rows1.last() == hit_view(hits@[i as int]));
        }
        let x = &hits[i];
        let found = find_term(&groups, &x.term);
        match found {
            Some(k) => {
                proof {
                    assert(group_keys(rows)[k as int] == x.term@);
                    assert(group_keys(rows).contains(x.term@));
                    assert(group_keys(rows1) == group_keys(rows));
                    assert forall|j: int| 0 <= j < gs1.len() implies gs1[j] == (
                    gs[j].0,
                    count_sum_for(rows1, gs[j].0),
                    max_time_for(rows1, gs[j].0),
                    ) by {}
                }
                let g = &groups[k];
                let new_sum: u64 = g.count_sum.saturating_add(x.count);
                let new_max: i64 = if x.time > g.max_time {
                    x.time
                } else {
                    g.max_time
                };
                let updated = TermGroup { term: g.term.clone(), count_sum: new_sum, max_time: new_max };
                groups[k] = updated;
                proof {
                    assert forall|j: int| 0 <= j < gs1.len() implies ((gs1[j].1 <= u32::MAX
                        ==> (#[trigger] groups@[j]).count_sum as int == gs1[j].1) && (gs1[j].1
                        > u32::MAX ==> groups@[j].count_sum > u32::MAX)) by {
                        if j != k {
                            assert(group_keys(rows)[j] != group_keys(rows)[k as int]);
                            assert(count_sum_for(rows1, gs[j].0) == count_sum_for(rows, gs[j].0));
                        }
                    }
                    assert forall|j: int| 0 <= j < gs1.len() implies (#[trigger] groups@[j]).max_time
                        as int == gs1[j].2 by {
                        if j != k {
                            assert(group_keys(rows)[j] != group_keys(rows)[k as int]);
                            assert(max_time_for(rows1, gs[j].0) == max_time_for(rows, gs[j].0));
                        }
                    }
                    assert(groups_match(groups@, gs1));
                }
            },
            None => {
                proof {
                    assert forall|w: int|
                        0 <= w < group_keys(rows).len() implies group_keys(rows)[w]
                        != x.term@ by {
                        assert(groups@[w].term@ != x.term@);
                    }
                    assert(!group_keys(rows).contains(x.term@));
                    lemma_absent_key(rows, x.term@);
                    assert(group_keys(rows1) == group_keys(rows).push(x.term@));
                }
                groups.push(
                    TermGroup { term: x.term.clone(), count_sum: x.count, max_time: x.time },
                );
                proof {
                    assert forall|j: int| 0 <= j < gs1.len() implies gs1[j] == (
                    group_keys(rows1)[j],
                    count_sum_for(rows1, group_keys(rows1)[j]),
                    max_time_for(rows1, group_keys(rows1)[j]),
                    ) by {}
                    assert forall|j: int| 0 <= j < gs.len() implies group_keys(rows1)[j]
                        != x.term@ by {
                        assert(groups@[j].term@ != x.term@);
                    }
                    assert forall|j: int| 0 <= j < gs.len() implies count_sum_for(rows1, gs[j].0)
                        == count_sum_for(rows, gs[j].0) && max_time_for(rows1, gs[j].0)
                        == max_time_for(rows, gs[j].0) by {
                        assert(gs[j].0 == group_keys(rows)[j]);
                        assert(group_keys(rows1)[j] == group_keys(rows)[j]);
                    }
                    assert(count_sum_for(rows1, x.term@) == x.count as int);
                    assert(max_time_for(rows1, x.term@) == x.time as int);
                    assert(groups_match(groups@, gs1));
                }
            },
        }
        i += 1;
    }
    proof {
        assert(hits@.take(hits@.len() as int) =~= hits@);
    }
    groups
}

proof fn lemma_hit_views_push(s: Seq<SearchHit>, x: SearchHit)
    ensures
        hit_views(s.push(x)) == hit_views(s).push(hit_view(x)),
{
    assert(hit_views(s.push(x)) =~= hit_views(s).push(hit_view(x)));
}

proof fn lemma_search_views_push(s: Seq<SearchRecord>, x: SearchRecord)
    ensures
        search_views(s.push(x)) == search_views(s).push(search_rec_view(x)),
{
    assert(search_views(s.push(x)) =~= search_views(s).push(search_rec_view(x)));
}

/// Join the two tables: one hit per term row and matching URL row with a
/// positive visit count.
fn join_search_rows(terms: &Vec<SearchTermRow>, urls: &Vec<UrlRow>) -> (r: Vec<SearchHit>)
    ensures
        hit_views(r@) == joined_terms(terms@, urls@),
{
    let mut hits: Vec<SearchHit> = Vec::new();
    let mut i: usize = 0;
    while i < terms.len()
        invariant
            i <= terms@.len(),
            hit_views(hits@) == joined_terms(terms@.take(i as int), urls@),
        decreases terms@.len() - i,
    {
        let mut j: usize = 0;
        while j < urls.len()
            invariant
                i < terms@.len(),
                j <= urls@.len(),
                hit_views(hits@) == joined_terms(terms@.take(i as int), urls@) + term_matches(
                    terms@[i as int],
                    urls@.take(j as int),
                ),
            decreases urls@.len() - j,
        {
            let t = &terms[i];
            let u = &urls[j];
            if let Some(tid) = t.url_id {
                if let Some(term_text) = &t.normalized_term {
                    if let Some(uid) = u.id {
                        if tid == uid {
                            if let Some(vc) = u.visit_count {
                                if vc > 0 {
                                    if let Some(lvt) = u.last_visit_time {
                                        let ghost before = hits@;
                                        hits.push(
                                            SearchHit {
                                                term: term_text.clone(),
                                                count: vc as u64,
                                                time: lvt,
                                            },
                                        );
                                        proof {
                                            lemma_hit_views_push(before, hits@.last());
                                        }
                                    }
                                }
                            }
                        }
                    }
                }
            }
            proof {
                let unext = urls@.take(j + 1);
                assert(unext.drop_last() =~= urls@.take(j as int));
                assert(unext.last() == urls@[j as int]);
                assert(hit_views(hits@) == joined_terms(terms@.take(i as int), urls@)
                    + term_matches(terms@[i as int], unext));
            }
            j += 1;
        }
        proof {
            let tnext = terms@.take(i + 1);
            assert(tnext.drop_last() =~= terms@.take(i as int));
            assert(tnext.last() == terms@[i as int]);
            assert(urls@.take(urls@.len() as int) =~= urls@);
            assert(hit_views(hits@) == joined_terms(tnext, urls@));
        }
        i += 1;
    }
    proof {
        assert(terms@.take(terms@.len() as int) =~= terms@);
    }
    hits
}

/// Decode each aggregate into a record; aggregates whose sum does not fit
/// or whose time does not convert are silently dropped.
fn decode_search_groups(
    groups: &Vec<TermGroup>,
    Ghost(gs): Ghost<Seq<(Seq<char>, int, int)>>,
) -> (r: Vec<SearchRecord>)
    requires
        groups_match(groups@, gs),
    ensures
        search_views(r@) == decode_groups(gs),
        forall|k: int| 0 <= k < r@.len() ==> (#[trigger] r@[k]).last_visit_time.is_valid(),
{
    let mut out: Vec<SearchRecord> = Vec::new();
    let mut i: usize = 0;
    while i < groups.len()
        invariant
            i <= groups@.len(),
            groups_match(groups@, gs),
            search_views(out@) == decode_groups(gs.take(i as int)),
            forall|k: int|
                0 <= k < out@.len() ==> (#[trigger] out@[k]).last_visit_time.is_valid(),
        decreases groups@.len() - i,
    {
        let g = &groups[i];
        if g.count_sum <= (u32::MAX as u64) {
            if let Some(ts) = convert_timestamp(g.max_time) {
                let ghost before = out@;
                out.push(
                    SearchRecord {
                        normalized_term: g.term.clone(),
                        visit_count: g.count_sum as u32,
                        last_visit_time: ts,
                    },
                );
                proof {
                    lemma_search_views_push(before, out@.last());
                }
            }
        }
        proof {
            assert(gs.take(i + 1).drop_last() =~= gs.take(i as int));
            assert(gs.take(i + 1).last() == gs[i as int]);
            assert(search_views(out@) == decode_groups(gs.take(i + 1)));
        }
        i += 1;
    }
    proof {
        assert(gs.take(gs.len() as int) =~= gs);
    }
    out
}

/// Insert one record into a time-descending vector, before the first
/// strictly older one.
fn insert_search_record(out: &mut Vec<SearchRecord>, rec: SearchRecord)
    ensures
        search_views(final(out)@) == insert_time_desc(
            search_rec_view(rec),
            search_views(old(out)@),
        ),
        final(out)@.len() == old(out)@.len() + 1,
        forall|k: int|
            0 <= k < final(out)@.len() ==> (#[trigger] final(out)@[k]).last_visit_time
                == rec.last_visit_time || old(out)@.contains(final(out)@[k]),
{
    let ghost s = search_views(old(out)@);
    let ghost x = search_rec_view(rec);
    let mut idx: usize = 0;
    while idx < out.len() && !(rec.last_visit_time.micros_since_unix_epoch
        > out[idx].last_visit_time.micros_since_unix_epoch)
        invariant
            idx <= out@.len(),
            out@ == old(out)@,
            s == search_views(out@),
            x == search_rec_view(rec),
            forall|k: int|
                0 <= k < idx ==> !(x.2.micros_since_unix_epoch
                    > s[k].2.micros_since_unix_epoch),
        decreases out@.len() - idx,
    {
        assert(s[idx as int] == search_rec_view(out@[idx as int]));
        idx += 1;
    }
    proof {
        if idx < out@.len() {
            assert(s[idx as int] == search_rec_view(out@[idx as int]));
        }
        lemma_insert_time_at_position(x, s, idx as int);
    }
    out.insert(idx, rec);
    proof {
        assert(search_views(out@) =~= s.take(idx as int) + seq![x] + s.skip(idx as int));
        assert forall|k: int|
            0 <= k < out@.len() implies (#[trigger] out@[k]).last_visit_time
            == rec.last_visit_time || old(out)@.contains(out@[k]) by {
            if k < idx {
                assert(out@[k] == old(out)@[k]);
                assert(old(out)@.contains(out@[k]));
            } else if k > idx {
                assert(out@[k] == old(out)@[k - 1]);
                assert(old(out)@.contains(out@[k]));
            }
        }
    }
}

/// Where the first strictly-older element sits is where insertion puts
/// the new one.
proof fn lemma_insert_time_at_position(
    x: (Seq<char>, u32, Timestamp),
    s: Seq<(Seq<char>, u32, Timestamp)>,
    j: int,
)
    requires
        0 <= j <= s.len(),
        forall|k: int| 0 <= k < j ==> !(x.2.micros_since_unix_epoch > s[k].2.micros_since_unix_epoch),
        j < s.len() ==> x.2.micros_since_unix_epoch > s[j].2.micros_since_unix_epoch,
    ensures
        insert_time_desc(x, s) == s.take(j) + seq![x] + s.skip(j),
    decreases j,
{
    if j == 0 {
        if s.len() == 0 {
            assert(insert_time_desc(x, s) =~= s.take(0) + seq![x] + s.skip(0));
        } else {
            assert(insert_time_desc(x, s) =~= s.take(0) + seq![x] + s.skip(0));
        }
    } else {
        let s1 = s.drop_first();
        assert(forall|k: int| 0 <= k < s1.len() ==> s1[k] == s[k + 1]);
        lemma_insert_time_at_position(x, s1, j - 1);
        assert(seq![s[0]] + (s1.take(j - 1) + seq![x] + s1.skip(j - 1)) =~= s.take(j) + seq![x]
            + s.skip(j));
    }
}

/// Every element of an insertion result is the inserted element or one of
/// the original ones.
proof fn lemma_insert_time_bounds(x: (Seq<char>, u32, Timestamp), s: Seq<(Seq<char>, u32, Timestamp)>)
    ensures
        insert_time_desc(x, s).len() == s.len() + 1,
        forall|k: int|
            0 <= k < insert_time_desc(x, s).len() ==> (#[trigger] insert_time_desc(
                x,
                s,
            )[k]).2.micros_since_unix_epoch == x.2.micros_since_unix_epoch || s.contains(
                insert_time_desc(x, s)[k],
            ),
    decreases s.len(),
{
    if s.len() == 0 {
    } else if x.2.micros_since_unix_epoch > s[0].2.micros_since_unix_epoch {
        let r = seq![x] + s;
        assert forall|k: int|
            0 <= k < r.len() implies (#[trigger] r[k]).2.micros_since_unix_epoch
            == x.2.micros_since_unix_epoch || s.contains(r[k]) by {
            if k > 0 {
                assert(r[k] == s[k - 1]);
                assert(s.contains(s[k - 1]));
            }
        }
    } else {
        let s1 = s.drop_first();
        lemma_insert_time_bounds(x, s1);
        let r = seq![s[0]] + insert_time_desc(x, s1);
        assert forall|k: int|
            0 <= k < r.len() implies (#[trigger] r[k]).2.micros_since_unix_epoch
            == x.2.micros_since_unix_epoch || s.contains(r[k]) by {
            if k == 0 {
                assert(s.contains(s[0]));
            } else {
                let e = insert_time_desc(x, s1)[k - 1];
                assert(r[k] == e);
                if e.2.micros_since_unix_epoch != x.2.micros_since_unix_epoch {
                    let w = choose|w: int| 0 <= w < s1.len() && s1[w] == e;
                    assert(s[w + 1] == e);
                    assert(s.contains(e));
                }
            }
        }
    }
}

/// Inserting into a time-sorted sequence keeps it sorted.
proof fn lemma_insert_time_keeps_sorted(
    x: (Seq<char>, u32, Timestamp),
    s: Seq<(Seq<char>, u32, Timestamp)>,
)
    requires
        times_sorted_desc(s),
    ensures
        times_sorted_desc(insert_time_desc(x, s)),
    decreases s.len(),
{
    if s.len() == 0 {
    } else if x.2.micros_since_unix_epoch > s[0].2.micros_since_unix_epoch {
        let r = seq![x] + s;
        assert forall|a: int, b: int|
            0 <= a < b < r.len() implies r[a].2.micros_since_unix_epoch
            >= r[b].2.micros_since_unix_epoch by {
            if a == 0 {
                if b > 1 {
                    assert(s[0].2.micros_since_unix_epoch >= s[b - 1].2.micros_since_unix_epoch);
                }
            }
        }
    } else {
        let s1 = s.drop_first();
        assert(forall|k: int| 0 <= k < s1.len() ==> s1[k] == s[k + 1]);
        lemma_insert_time_keeps_sorted(x, s1);
        let r1 = insert_time_desc(x, s1);
        let r = seq![s[0]] + r1;
        lemma_insert_time_bounds(x, s1);
        assert forall|a: int, b: int|
            0 <= a < b < r.len() implies r[a].2.micros_since_unix_epoch
            >= r[b].2.micros_since_unix_epoch by {
            if a == 0 {
                assert(r[b] == r1[b - 1]);
                if r1[b - 1].2.micros_since_unix_epoch == x.2.micros_since_unix_epoch {
                    assert(s[0].2.micros_since_unix_epoch >= x.2.micros_since_unix_epoch);
                } else {
                    let w = choose|w: int| 0 <= w < s1.len() && s1[w] == r1[b - 1];
                    assert(s[0].2.micros_since_unix_epoch >= s[w + 1].2.micros_since_unix_epoch);
                }
            } else {
                assert(r[a] == r1[a - 1] && r[b] == r1[b - 1]);
            }
        }
    }
}

/// The sorted sequence is ordered by last-visit time, most recent first.
pub proof fn lemma_sort_time_sorted(s: Seq<(Seq<char>, u32, Timestamp)>)
    ensures
        times_sorted_desc(sort_time_desc(s)),
    decreases s.len(),
{
    if s.len() > 0 {
        lemma_sort_time_sorted(s.drop_last());
        lemma_insert_time_keeps_sorted(s.last(), sort_time_desc(s.drop_last()));
    }
}

proof fn lemma_insert_time_permutes(
    x: (Seq<char>, u32, Timestamp),
    s: Seq<(Seq<char>, u32, Timestamp)>,
)
    ensures
        insert_time_desc(x, s).to_multiset() == s.to_multiset().insert(x),
    decreases s.len(),
{
    broadcast use vstd::seq_lib::group_to_multiset_ensures;

    if s.len() == 0 {
        assert(seq![x] =~= Seq::<(Seq<char>, u32, Timestamp)>::empty().push(x));
        assert(insert_time_desc(x, s).to_multiset() =~= s.to_multiset().insert(x));
    } else if x.2.micros_since_unix_epoch > s[0].2.micros_since_unix_epoch {
        vstd::seq_lib::lemma_multiset_commutative(seq![x], s);
        assert(seq![x] =~= Seq::<(Seq<char>, u32, Timestamp)>::empty().push(x));
        assert(insert_time_desc(x, s).to_multiset() =~= s.to_multiset().insert(x));
    } else {
        let s1 = s.drop_first();
        lemma_insert_time_permutes(x, s1);
        vstd::seq_lib::lemma_multiset_commutative(seq![s[0]], insert_time_desc(x, s1));
        assert(s =~= seq![s[0]] + s1);
        vstd::seq_lib::lemma_multiset_commutative(seq![s[0]], s1);
        assert(insert_time_desc(x, s).to_multiset() =~= s.to_multiset().insert(x));
    }
}

/// Sorting neither loses nor invents records: the sorted sequence holds
/// exactly the decoded aggregates.
pub proof fn lemma_sort_time_permutes(s: Seq<(Seq<char>, u32, Timestamp)>)
    ensures
        sort_time_desc(s).to_multiset() == s.to_multiset(),
    decreases s.len(),
{
    broadcast use vstd::seq_lib::group_to_multiset_ensures;

    if s.len() > 0 {
        lemma_sort_time_permutes(s.drop_last());
        lemma_insert_time_permutes(s.last(), sort_time_desc(s.drop_last()));
        assert(s =~= s.drop_last().push(s.last()));
        assert(sort_time_desc(s).to_multiset() =~= s.to_multiset());
    }
}

/// The query result holds exactly the decoded aggregates, ordered by
/// last-visit time.
pub proof fn lemma_search_records_complete(terms: Seq<SearchTermRow>, urls: Seq<UrlRow>)
    ensures
        spec_search_records(terms, urls).to_multiset() == decode_groups(
            search_groups(joined_terms(terms, urls)),
        ).to_multiset(),
{
    lemma_sort_time_permutes(decode_groups(search_groups(joined_terms(terms, urls))));
}

fn clone_search_record(r: &SearchRecord) -> (c: SearchRecord)
    ensures
        c == *r,
{
    SearchRecord {
        normalized_term: r.normalized_term.clone(),
        visit_count: r.visit_count,
        last_visit_time: r.last_visit_time,
    }
}

/// Order decoded records by last-visit time, most recent first.
fn sort_search_records(recs: &Vec<SearchRecord>) -> (r: Vec<SearchRecord>)
    ensures
        search_views(r@) == sort_time_desc(search_views(recs@)),
        forall|k: int|
            0 <= k < r@.len() ==> exists|w: int|
                0 <= w < recs@.len() && (#[trigger] r@[k]).last_visit_time
                    == recs@[w].last_visit_time,
{
    let mut out: Vec<SearchRecord> = Vec::new();
    let mut i: usize = 0;
    while i < recs.len()
        invariant
            i <= recs@.len(),
            search_views(out@) == sort_time_desc(search_views(recs@.take(i as int))),
            forall|k: int|
                0 <= k < out@.len() ==> exists|w: int|
                    0 <= w < recs@.len() && (#[trigger] out@[k]).last_visit_time
                        == recs@[w].last_visit_time,
        decreases recs@.len() - i,
    {
        let x = clone_search_record(&recs[i]);
        let ghost prev = out@;
        insert_search_record(&mut out, x);
        proof {
            assert(search_views(recs@.take(i + 1)).drop_last() =~= search_views(
                recs@.take(i as int),
            ));
            assert(search_views(recs@.take(i + 1)).last() == search_rec_view(recs@[i as int]));
            assert forall|k: int|
                0 <= k < out@.len() implies exists|w: int|
                0 <= w < recs@.len() && (#[trigger] out@[k]).last_visit_time
                    == recs@[w].last_visit_time by {
                if out@[k].last_visit_time == x.last_visit_time {
                    assert(0 <= i < recs@.len() && recs@[i as int].last_visit_time
                        == x.last_visit_time);
                } else {
                    assert(prev.contains(out@[k]));
                    let p = choose|p: int| 0 <= p < prev.len() && prev[p] == out@[k];
                }
            }
        }
        i += 1;
    }
    proof {
        assert(recs@.take(recs@.len() as int) =~= recs@);
    }
    out
}

/// Aggregate and order the search terms held in the two tables: join,
/// keep positive counts, group by term, sum counts and take the latest
/// visit time, decode (dropping groups that do not decode, silently), and
/// order by last-visit time, most recent first.
pub fn build_search_records(terms: &Vec<SearchTermRow>, urls: &Vec<UrlRow>) -> (r: Vec<
    SearchRecord,
>)
    ensures
        search_views(r@) == spec_search_records(terms@, urls@),
        forall|k: int| 0 <= k < r@.len() ==> (#[trigger] r@[k]).last_visit_time.is_valid(),
{
    let hits = join_search_rows(terms, urls);
    let groups = group_search_hits(&hits);
    let recs = decode_search_groups(&groups, Ghost(search_groups(hit_views(hits@))));
    sort_search_records(&recs)
}

/// With no search-term rows the query yields no records, whatever the URL
/// table holds.
pub proof fn lemma_no_term_rows_no_records(urls: Seq<UrlRow>)
    ensures
        spec_search_records(Seq::empty(), urls) == Seq::<(Seq<char>, u32, Timestamp)>::empty(),
{
    let nothing = Seq::<(Seq<char>, int, int)>::empty();
    assert(joined_terms(Seq::empty(), urls) == nothing);
    assert(group_keys(nothing) == Seq::<Seq<char>>::empty());
    assert(search_groups(nothing) =~= nothing);
    assert(decode_groups(nothing) == Seq::<(Seq<char>, u32, Timestamp)>::empty());
}

proof fn lemma_term_matches_nothing(t: SearchTermRow, urls: Seq<UrlRow>)
    requires
        forall|k: int| 0 <= k < urls.len() ==> !search_join_ok(t, urls[k]),
    ensures
        term_matches(t, urls) == Seq::<(Seq<char>, int, int)>::empty(),
    decreases urls.len(),
{
    if urls.len() > 0 {
        assert(forall|k: int|
            0 <= k < urls.drop_last().len() ==> urls.drop_last()[k] == urls[k]);
        lemma_term_matches_nothing(t, urls.drop_last());
        assert(!search_join_ok(t, urls.last()));
        assert(term_matches(t, urls) =~= Seq::<(Seq<char>, int, int)>::empty());
    }
}

/// A search-term row whose URL entry is missing, has no positive visit
/// count, or no last-visit time, is excluded entirely: it creates no
/// group and contributes to no sum; the remaining rows are unaffected.
pub proof fn lemma_nonpositive_count_excluded(
    t: SearchTermRow,
    terms: Seq<SearchTermRow>,
    urls: Seq<UrlRow>,
)
    requires
        forall|k: int| 0 <= k < urls.len() ==> !search_join_ok(t, urls[k]),
    ensures
        spec_search_records(terms.push(t), urls) == spec_search_records(terms, urls),
{
    lemma_term_matches_nothing(t, urls);
    assert(terms.push(t).drop_last() =~= terms);
    assert(joined_terms(terms.push(t), urls) =~= joined_terms(terms, urls));
}

/// An aggregate whose latest visit time lies outside the representable
/// range is dropped from the result, the remaining aggregates unaffected.
pub proof fn lemma_overflowing_group_dropped(
    g: (Seq<char>, int, int),
    gs: Seq<(Seq<char>, int, int)>,
)
    requires
        spec_convert(g.2) is None,
    ensures
        decode_groups(gs.push(g)) == decode_groups(gs),
{
    assert(gs.push(g).drop_last() =~= gs);
    assert(decode_groups(gs.push(g)) =~= decode_groups(gs));
}

/// The search-record sequences produced by the query are ordered by
/// last-visit time, most recent first.
pub proof fn lemma_search_records_sorted(terms: Seq<SearchTermRow>, urls: Seq<UrlRow>)
    ensures
        times_sorted_desc(spec_search_records(terms, urls)),
{
    lemma_sort_time_sorted(decode_groups(search_groups(joined_terms(terms, urls))));
}

} // verus!
