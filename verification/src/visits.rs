//! The page-visit query: join the `visits` table to the `urls` table on
//! the URL id, decode each joined row (URL text, visit instant, unsigned
//! duration), silently drop rows that do not join or do not decode, and
//! order the result by visit duration, longest first.

use vstd::prelude::*;

use crate::rows::{UrlRow, VisitRow};
use crate::timestamp::Timestamp;
use crate::timestamp::convert_timestamp;
use crate::timestamp::spec_convert;

verus! {

/// One page visit, decoded.
#[derive(Debug)]
pub struct VisitRecord {
    /// Full URL of the visited page.
    pub url: String,
    /// When the visit happened.
    pub visit_time: Timestamp,
    /// Microseconds spent on the page.
    pub visit_duration: u64,
}

/// The fields of a record as mathematical values: URL characters,
/// instant, duration.
pub open spec fn visit_rec_view(r: VisitRecord) -> (Seq<char>, Timestamp, u64) {
    (r.url@, r.visit_time, r.visit_duration)
}

/// A sequence of records, field-wise.
pub open spec fn visit_views(rs: Seq<VisitRecord>) -> Seq<(Seq<char>, Timestamp, u64)> {
    rs.map_values(|r: VisitRecord| visit_rec_view(r))
}

/// A visit row joins a URL row when both ids are present and equal and
/// the URL row has a textual URL.
pub open spec fn visit_join_ok(v: VisitRow, u: UrlRow) -> bool {
    &&& v.url_id is Some
    &&& u.id is Some
    &&& u.id.unwrap() == v.url_id.unwrap()
    &&& u.url is Some
}

/// A visit row decodes when its instant is present and convertible and
/// its duration is present and fits an unsigned integer.
pub open spec fn visit_decode_ok(v: VisitRow) -> bool {
    &&& v.visit_time is Some
    &&& spec_convert(v.visit_time.unwrap() as int) is Some
    &&& v.visit_duration is Some
    &&& v.visit_duration.unwrap() >= 0
}

/// The decoded fields of a joined row.
pub open spec fn decoded_visit(v: VisitRow, u: UrlRow) -> (Seq<char>, Timestamp, u64)
    recommends
        visit_join_ok(v, u),
        visit_decode_ok(v),
{
    (
        u.url.unwrap()@,
        spec_convert(v.visit_time.unwrap() as int).unwrap(),
        v.visit_duration.unwrap() as u64,
    )
}

/// The decoded rows one visit row contributes: one per matching URL row,
/// in table order; none when the row does not decode.
pub open spec fn visit_matches(v: VisitRow, urls: Seq<UrlRow>) -> Seq<(Seq<char>, Timestamp, u64)>
    decreases urls.len(),
{
    if urls.len() == 0 {
        Seq::empty()
    } else {
        visit_matches(v, urls.drop_last()) + (if visit_join_ok(v, urls.last())
            && visit_decode_ok(v) {
            seq![decoded_visit(v, urls.last())]
        } else {
            Seq::empty()
        })
    }
}

/// All decoded joined rows, visit rows in table order.
pub open spec fn joined_visits(visits: Seq<VisitRow>, urls: Seq<UrlRow>) -> Seq<
    (Seq<char>, Timestamp, u64),
>
    decreases visits.len(),
{
    if visits.len() == 0 {
        Seq::empty()
    } else {
        joined_visits(visits.drop_last(), urls) + visit_matches(visits.last(), urls)
    }
}

/// Insertion into a duration-descending sequence; an equal duration goes
/// after the elements already there.
pub open spec fn insert_duration_desc(
    x: (Seq<char>, Timestamp, u64),
    s: Seq<(Seq<char>, Timestamp, u64)>,
) -> Seq<(Seq<char>, Timestamp, u64)>
    decreases s.len(),
{
    if s.len() == 0 {
        seq![x]
    } else if x.2 > s[0].2 {
        seq![x] + s
    } else {
        seq![s[0]] + insert_duration_desc(x, s.drop_first())
    }
}

/// Sort by duration, longest first.
pub open spec fn sort_duration_desc(s: Seq<(Seq<char>, Timestamp, u64)>) -> Seq<
    (Seq<char>, Timestamp, u64),
>
    decreases s.len(),
{
    if s.len() == 0 {
        Seq::empty()
    } else {
        insert_duration_desc(s.last(), sort_duration_desc(s.drop_last()))
    }
}

/// What `get_visit_records` returns for given table contents.
pub open spec fn spec_visit_records(visits: Seq<VisitRow>, urls: Seq<UrlRow>) -> Seq<
    (Seq<char>, Timestamp, u64),
> {
    sort_duration_desc(joined_visits(visits, urls))
}

/// Durations never increase along the sequence.
pub open spec fn durations_sorted_desc(s: Seq<(Seq<char>, Timestamp, u64)>) -> bool {
    forall|a: int, b: int| 0 <= a < b < s.len() ==> s[a].2 >= s[b].2
}

proof fn lemma_views_push(s: Seq<VisitRecord>, x: VisitRecord)
    ensures
        visit_views(s.push(x)) == visit_views(s).push(visit_rec_view(x)),
{
    assert(visit_views(s.push(x)) =~= visit_views(s).push(visit_rec_view(x)));
}

/// A row that does not decode contributes nothing, whatever the URL table
/// holds.
pub proof fn lemma_undecodable_visit_matches_nothing(v: VisitRow, urls: Seq<UrlRow>)
    requires
        !visit_decode_ok(v),
    ensures
        visit_matches(v, urls) == Seq::<(Seq<char>, Timestamp, u64)>::empty(),
    decreases urls.len(),
{
    if urls.len() > 0 {
        lemma_undecodable_visit_matches_nothing(v, urls.drop_last());
        assert(visit_matches(v, urls) =~= Seq::<(Seq<char>, Timestamp, u64)>::empty());
    }
}

/// A row that joins no URL row contributes nothing.
pub proof fn lemma_unjoined_visit_matches_nothing(v: VisitRow, urls: Seq<UrlRow>)
    requires
        forall|k: int| 0 <= k < urls.len() ==> !visit_join_ok(v, urls[k]),
    ensures
        visit_matches(v, urls) == Seq::<(Seq<char>, Timestamp, u64)>::empty(),
    decreases urls.len(),
{
    if urls.len() > 0 {
        assert(urls.drop_last() =~= urls.take(urls.len() - 1));
        assert(forall|k: int|
            0 <= k < urls.drop_last().len() ==> urls.drop_last()[k] == urls[k]);
        lemma_unjoined_visit_matches_nothing(v, urls.drop_last());
        assert(!visit_join_ok(v, urls.last()));
        assert(visit_matches(v, urls) =~= Seq::<(Seq<char>, Timestamp, u64)>::empty());
    }
}

/// A visit row whose instant lies outside the representable range is
/// dropped from the result, and the remaining rows are unaffected.
pub proof fn lemma_overflowing_visit_dropped(v: VisitRow, visits: Seq<VisitRow>, urls: Seq<UrlRow>)
    requires
        v.visit_time is Some,
        spec_convert(v.visit_time.unwrap() as int) is None,
    ensures
        spec_visit_records(visits.push(v), urls) == spec_visit_records(visits, urls),
{
    lemma_undecodable_visit_matches_nothing(v, urls);
    assert(visits.push(v).drop_last() =~= visits);
    assert(joined_visits(visits.push(v), urls) =~= joined_visits(visits, urls));
}

/// A visit row whose URL id matches no URL row is dropped from the
/// result, and the remaining rows are unaffected.
pub proof fn lemma_unmatched_visit_dropped(v: VisitRow, visits: Seq<VisitRow>, urls: Seq<UrlRow>)
    requires
        forall|k: int| 0 <= k < urls.len() ==> !visit_join_ok(v, urls[k]),
    ensures
        spec_visit_records(visits.push(v), urls) == spec_visit_records(visits, urls),
{
    lemma_unjoined_visit_matches_nothing(v, urls);
    assert(visits.push(v).drop_last() =~= visits);
    assert(joined_visits(visits.push(v), urls) =~= joined_visits(visits, urls));
}

/// With no visit rows the query yields no records, whatever the URL
/// table holds.
pub proof fn lemma_no_visit_rows_no_records(urls: Seq<UrlRow>)
    ensures
        spec_visit_records(Seq::empty(), urls) == Seq::<(Seq<char>, Timestamp, u64)>::empty(),
{
    let nothing = Seq::<(Seq<char>, Timestamp, u64)>::empty();
    assert(joined_visits(Seq::empty(), urls) == nothing);
    assert(sort_duration_desc(nothing) == nothing);
}

/// Inserting into a duration-sorted sequence keeps it sorted.
proof fn lemma_insert_keeps_sorted(x: (Seq<char>, Timestamp, u64), s: Seq<(Seq<char>, Timestamp, u64)>)
    requires
        durations_sorted_desc(s),
    ensures
        durations_sorted_desc(insert_duration_desc(x, s)),
    decreases s.len(),
{
    if s.len() == 0 {
    } else if x.2 > s[0].2 {
        let r = seq![x] + s;
        assert forall|a: int, b: int| 0 <= a < b < r.len() implies r[a].2 >= r[b].2 by {
            if a == 0 {
                if b > 1 {
                    assert(s[0].2 >= s[b - 1].2);
                }
            }
        }
    } else {
        let s1 = s.drop_first();
        assert(forall|k: int| 0 <= k < s1.len() ==> s1[k] == s[k + 1]);
        lemma_insert_keeps_sorted(x, s1);
        let r1 = insert_duration_desc(x, s1);
        let r = seq![s[0]] + r1;
        lemma_insert_bounds(x, s1);
        assert forall|a: int, b: int| 0 <= a < b < r.len() implies r[a].2 >= r[b].2 by {
            if a == 0 {
                assert(r[b] == r1[b - 1]);
                assert(r1[b - 1].2 == x.2 || s1.contains(r1[b - 1]));
                if r1[b - 1].2 == x.2 {
                    assert(s[0].2 >= x.2);
                } else {
                    let w = choose|w: int| 0 <= w < s1.len() && s1[w] == r1[b - 1];
                    assert(s[0].2 >= s[w + 1].2);
                }
            } else {
                assert(r[a] == r1[a - 1] && r[b] == r1[b - 1]);
            }
        }
    }
}

/// Every element of an insertion result is the inserted element or one of
/// the original ones.
proof fn lemma_insert_bounds(x: (Seq<char>, Timestamp, u64), s: Seq<(Seq<char>, Timestamp, u64)>)
    ensures
        insert_duration_desc(x, s).len() == s.len() + 1,
        forall|k: int|
            0 <= k < insert_duration_desc(x, s).len() ==> (#[trigger] insert_duration_desc(x, s)[k]).2
                == x.2 || s.contains(insert_duration_desc(x, s)[k]),
    decreases s.len(),
{
    if s.len() == 0 {
    } else if x.2 > s[0].2 {
        let r = seq![x] + s;
        assert forall|k: int| 0 <= k < r.len() implies (#[trigger] r[k]).2 == x.2 || s.contains(
            r[k],
        ) by {
            if k > 0 {
                assert(r[k] == s[k - 1]);
                assert(s.contains(s[k - 1]));
            }
        }
    } else {
        let s1 = s.drop_first();
        lemma_insert_bounds(x, s1);
        let r = seq![s[0]] + insert_duration_desc(x, s1);
        assert forall|k: int| 0 <= k < r.len() implies (#[trigger] r[k]).2 == x.2 || s.contains(
            r[k],
        ) by {
            if k == 0 {
                assert(s.contains(s[0]));
            } else {
                let e = insert_duration_desc(x, s1)[k - 1];
                assert(r[k] == e);
                if e.2 != x.2 {
                    let w = choose|w: int| 0 <= w < s1.len() && s1[w] == e;
                    assert(s[w + 1] == e);
                    assert(s.contains(e));
                }
            }
        }
    }
}

/// The sorted sequence is ordered by duration, longest first.
pub proof fn lemma_sort_duration_sorted(s: Seq<(Seq<char>, Timestamp, u64)>)
    ensures
        durations_sorted_desc(sort_duration_desc(s)),
    decreases s.len(),
{
    if s.len() > 0 {
        lemma_sort_duration_sorted(s.drop_last());
        lemma_insert_keeps_sorted(s.last(), sort_duration_desc(s.drop_last()));
    }
}

/// The visit-record sequences produced by the query are ordered by
/// duration, longest first.
pub proof fn lemma_visit_records_sorted(visits: Seq<VisitRow>, urls: Seq<UrlRow>)
    ensures
        durations_sorted_desc(spec_visit_records(visits, urls)),
{
    lemma_sort_duration_sorted(joined_visits(visits, urls));
}

proof fn lemma_insert_duration_permutes(
    x: (Seq<char>, Timestamp, u64),
    s: Seq<(Seq<char>, Timestamp, u64)>,
)
    ensures
        insert_duration_desc(x, s).to_multiset() == s.to_multiset().insert(x),
    decreases s.len(),
{
    broadcast use vstd::seq_lib::group_to_multiset_ensures;

    if s.len() == 0 {
        assert(seq![x] =~= Seq::<(Seq<char>, Timestamp, u64)>::empty().push(x));
        assert(insert_duration_desc(x, s).to_multiset() =~= s.to_multiset().insert(x));
    } else if x.2 > s[0].2 {
        vstd::seq_lib::lemma_multiset_commutative(seq![x], s);
        assert(seq![x] =~= Seq::<(Seq<char>, Timestamp, u64)>::empty().push(x));
        assert(insert_duration_desc(x, s).to_multiset() =~= s.to_multiset().insert(x));
    } else {
        let s1 = s.drop_first();
        lemma_insert_duration_permutes(x, s1);
        vstd::seq_lib::lemma_multiset_commutative(seq![s[0]], insert_duration_desc(x, s1));
        assert(s =~= seq![s[0]] + s1);
        vstd::seq_lib::lemma_multiset_commutative(seq![s[0]], s1);
        assert(insert_duration_desc(x, s).to_multiset() =~= s.to_multiset().insert(x));
    }
}

/// Sorting neither loses nor invents records: the sorted sequence holds
/// exactly the decoded joined rows.
pub proof fn lemma_sort_duration_permutes(s: Seq<(Seq<char>, Timestamp, u64)>)
    ensures
        sort_duration_desc(s).to_multiset() == s.to_multiset(),
    decreases s.len(),
{
    broadcast use vstd::seq_lib::group_to_multiset_ensures;

    if s.len() > 0 {
        lemma_sort_duration_permutes(s.drop_last());
        lemma_insert_duration_permutes(s.last(), sort_duration_desc(s.drop_last()));
        assert(s =~= s.drop_last().push(s.last()));
        assert(sort_duration_desc(s).to_multiset() =~= s.to_multiset());
    }
}

/// The query result holds exactly the decoded joined rows, ordered by
/// duration.
pub proof fn lemma_visit_records_complete(visits: Seq<VisitRow>, urls: Seq<UrlRow>)
    ensures
        spec_visit_records(visits, urls).to_multiset() == joined_visits(visits, urls).to_multiset(),
{
    lemma_sort_duration_permutes(joined_visits(visits, urls));
}

/// Insert one record into a duration-descending vector, before the first
/// strictly shorter one.
fn insert_visit_record(out: &mut Vec<VisitRecord>, rec: VisitRecord)
    ensures
        visit_views(final(out)@) == insert_duration_desc(
            visit_rec_view(rec),
            visit_views(old(out)@),
        ),
        final(out)@.len() == old(out)@.len() + 1,
        forall|k: int|
            0 <= k < final(out)@.len() ==> (#[trigger] final(out)@[k]).visit_time
                == rec.visit_time || old(out)@.contains(final(out)@[k]),
{
    let ghost s = visit_views(old(out)@);
    let ghost x = visit_rec_view(rec);
    let mut idx: usize = 0;
    while idx < out.len() && !(rec.visit_duration > out[idx].visit_duration)
        invariant
            idx <= out@.len(),
            out@ == old(out)@,
            s == visit_views(out@),
            x == visit_rec_view(rec),
            forall|k: int| 0 <= k < idx ==> !(x.2 > s[k].2),
        decreases out@.len() - idx,
    {
        assert(s[idx as int] == visit_rec_view(out@[idx as int]));
        assert(x.2 == rec.visit_duration);
        assert(!(x.2 > s[idx as int].2));
        idx += 1;
    }
    proof {
        if idx < out@.len() {
            assert(s[idx as int].2 == out@[idx as int].visit_duration);
        }
        lemma_insert_at_position(x, s, idx as int);
    }
    out.insert(idx, rec);
    proof {
        assert(visit_views(out@) =~= s.take(idx as int) + seq![x] + s.skip(idx as int));
        assert forall|k: int|
            0 <= k < out@.len() implies (#[trigger] out@[k]).visit_time == rec.visit_time || old(
            out,
        )@.contains(out@[k]) by {
            if k < idx {
                assert(out@[k] == old(out)@[k]);
                assert(old(out)@.contains(out@[k]));
            } else if k > idx {
                assert(out@[k] == old(out)@[k - 1]);
                assert(old(out)@.contains(out@[k]));
            }
        }
    }
}

/// Where the first strictly-smaller element sits is where insertion puts
/// the new one.
proof fn lemma_insert_at_position(
    x: (Seq<char>, Timestamp, u64),
    s: Seq<(Seq<char>, Timestamp, u64)>,
    j: int,
)
    requires
        0 <= j <= s.len(),
        forall|k: int| 0 <= k < j ==> !(x.2 > s[k].2),
        j < s.len() ==> x.2 > s[j].2,
    ensures
        insert_duration_desc(x, s) == s.take(j) + seq![x] + s.skip(j),
    decreases j,
{
    if j == 0 {
        if s.len() == 0 {
            assert(insert_duration_desc(x, s) =~= s.take(0) + seq![x] + s.skip(0));
        } else {
            assert(x.2 > s[0].2);
            assert(insert_duration_desc(x, s) =~= s.take(0) + seq![x] + s.skip(0));
        }
    } else {
        assert(!(x.2 > s[0].2));
        let s1 = s.drop_first();
        assert(forall|k: int| 0 <= k < s1.len() ==> s1[k] == s[k + 1]);
        lemma_insert_at_position(x, s1, j - 1);
        assert(seq![s[0]] + (s1.take(j - 1) + seq![x] + s1.skip(j - 1)) =~= s.take(j) + seq![x]
            + s.skip(j));
    }
}

fn clone_visit_record(r: &VisitRecord) -> (c: VisitRecord)
    ensures
        c == *r,
{
    VisitRecord { url: r.url.clone(), visit_time: r.visit_time, visit_duration: r.visit_duration }
}

/// Order decoded records by duration, longest first.
fn sort_visit_records(recs: &Vec<VisitRecord>) -> (r: Vec<VisitRecord>)
    ensures
        visit_views(r@) == sort_duration_desc(visit_views(recs@)),
        forall|k: int|
            0 <= k < r@.len() ==> exists|w: int|
                0 <= w < recs@.len() && (#[trigger] r@[k]).visit_time == recs@[w].visit_time,
{
    let mut out: Vec<VisitRecord> = Vec::new();
    let mut i: usize = 0;
    while i < recs.len()
        invariant
            i <= recs@.len(),
            visit_views(out@) == sort_duration_desc(visit_views(recs@.take(i as int))),
            forall|k: int|
                0 <= k < out@.len() ==> exists|w: int|
                    0 <= w < recs@.len() && (#[trigger] out@[k]).visit_time
                        == recs@[w].visit_time,
        decreases recs@.len() - i,
    {
        let x = clone_visit_record(&recs[i]);
        let ghost prev = out@;
        insert_visit_record(&mut out, x);
        proof {
            assert(visit_views(recs@.take(i + 1)).drop_last() =~= visit_views(
                recs@.take(i as int),
            ));
            assert(visit_views(recs@.take(i + 1)).last() == visit_rec_view(recs@[i as int]));
            assert forall|k: int|
                0 <= k < out@.len() implies exists|w: int|
                0 <= w < recs@.len() && (#[trigger] out@[k]).visit_time
                    == recs@[w].visit_time by {
                if out@[k].visit_time == x.visit_time {
                    assert(0 <= i < recs@.len() && recs@[i as int].visit_time == x.visit_time);
                } else {
                    assert(prev.contains(out@[k]));
                    let p = choose|p: int| 0 <= p < prev.len() && prev[p] == out@[k];
                }
            }
        }
        i += 1;
    }
    proof {
        assert(recs@.take(recs@.len() as int) =~= recs@);
    }
    out
}

/// Decode and order the page visits held in the two tables: every visit
/// row that joins a URL row and decodes yields one record; rows that do
/// not are silently dropped; the records are ordered by duration,
/// longest first.
pub fn build_visit_records(visits: &Vec<VisitRow>, urls: &Vec<UrlRow>) -> (r: Vec<VisitRecord>)
    ensures
        visit_views(r@) == spec_visit_records(visits@, urls@),
        forall|k: int| 0 <= k < r@.len() ==> (#[trigger] r@[k]).visit_time.is_valid(),
{
    let mut joined: Vec<VisitRecord> = Vec::new();
    let mut i: usize = 0;
    while i < visits.len()
        invariant
            i <= visits@.len(),
            visit_views(joined@) == joined_visits(visits@.take(i as int), urls@),
            forall|k: int| 0 <= k < joined@.len() ==> (#[trigger] joined@[k]).visit_time.is_valid(),
        decreases visits@.len() - i,
    {
        let mut j: usize = 0;
        while j < urls.len()
            invariant
                i < visits@.len(),
                j <= urls@.len(),
                visit_views(joined@) == joined_visits(visits@.take(i as int), urls@)
                    + visit_matches(visits@[i as int], urls@.take(j as int)),
                forall|k: int|
                    0 <= k < joined@.len() ==> (#[trigger] joined@[k]).visit_time.is_valid(),
            decreases urls@.len() - j,
        {
            let v = &visits[i];
            let u = &urls[j];
            if let Some(vid) = v.url_id {
                if let Some(uid) = u.id {
                    if vid == uid {
                        if let Some(url_text) = &u.url {
                            if let Some(vt) = v.visit_time {
                                if let Some(vd) = v.visit_duration {
                                    if vd >= 0 {
                                        if let Some(ts) = convert_timestamp(vt) {
                                            let ghost before = joined@;
                                            joined.push(
                                                VisitRecord {
                                                    url: url_text.clone(),
                                                    visit_time: ts,
                                                    visit_duration: vd as u64,
                                                },
                                            );
                                            proof {
                                                lemma_views_push(before, joined@.last());
                                            }
                                        }
                                    }
                                }
                            }
                        }
                    }
                }
            }
            proof {
                let uprefix = urls@.take(j as int);
                let unext = urls@.take(j + 1);
                assert(unext.drop_last() =~= uprefix);
                assert(unext.last() == urls@[j as int]);
                assert(visit_views(joined@) == joined_visits(visits@.take(i as int), urls@)
                    + visit_matches(visits@[i as int], unext));
            }
            j += 1;
        }
        proof {
            let vnext = visits@.take(i + 1);
            assert(vnext.drop_last() =~= visits@.take(i as int));
            assert(vnext.last() == visits@[i as int]);
            assert(urls@.take(urls@.len() as int) =~= urls@);
            assert(visit_views(joined@) == joined_visits(vnext, urls@));
        }
        i += 1;
    }
    proof {
        assert(visits@.take(visits@.len() as int) =~= visits@);
    }
    let r = sort_visit_records(&joined);
    r
}

} // verus!
