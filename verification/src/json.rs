//! Serialization of record sequences to JSON text: one array, one object
//! per record, one key per field, timestamps rendered as RFC 3339 UTC
//! text with microsecond precision so that the instant can be recovered
//! exactly.

use vstd::prelude::*;
use vstd::string::*;

use crate::search::SearchRecord;
use crate::search::search_rec_view;
use crate::search::search_views;
use crate::timestamp::Timestamp;
use crate::visits::VisitRecord;
use crate::visits::visit_rec_view;
use crate::visits::visit_views;

verus! {

/// The RFC 3339 UTC rendering, at microsecond precision, of an instant
/// given as microseconds since the Unix epoch. The text never holds a
/// quote, a backslash or a control character, so it stands in JSON
/// unescaped.
pub uninterp spec fn rfc3339_of(micros: int) -> Seq<char>;

/// Relies on chrono's `DateTime::<Utc>::from_timestamp_micros`, which
/// accepts every microsecond count a valid `Timestamp` can hold, and
/// `DateTime::to_rfc3339_opts`, whose text depends on the instant alone.
#[verifier::external_body]
fn format_rfc3339_micros(t: &Timestamp) -> (r: String)
    requires
        t.is_valid(),
    ensures
        r@ == rfc3339_of(t.micros_since_unix_epoch as int),
{
    let dt = chrono::DateTime::<chrono::Utc>::from_timestamp_micros(t.micros_since_unix_epoch)
        .expect("a valid timestamp lies within the representable range");
    dt.to_rfc3339_opts(chrono::SecondsFormat::Micros, true)
}

/// Relies on std's `String::push`: appends exactly one character.
#[verifier::external_body]
fn push_char(s: &mut String, c: char)
    ensures
        final(s)@ == old(s)@.push(c),
{
    s.push(c);
}

/// The digit character of a value below sixteen.
pub open spec fn hex_digit(n: int) -> char {
    if n == 0 {
        '0'
    } else if n == 1 {
        '1'
    } else if n == 2 {
        '2'
    } else if n == 3 {
        '3'
    } else if n == 4 {
        '4'
    } else if n == 5 {
        '5'
    } else if n == 6 {
        '6'
    } else if n == 7 {
        '7'
    } else if n == 8 {
        '8'
    } else if n == 9 {
        '9'
    } else if n == 10 {
        'a'
    } else if n == 11 {
        'b'
    } else if n == 12 {
        'c'
    } else if n == 13 {
        'd'
    } else if n == 14 {
        'e'
    } else {
        'f'
    }
}

fn hex_digit_char(n: u32) -> (c: char)
    requires
        n < 16,
    ensures
        c == hex_digit(n as int),
{
    if n == 0 {
        '0'
    } else if n == 1 {
        '1'
    } else if n == 2 {
        '2'
    } else if n == 3 {
        '3'
    } else if n == 4 {
        '4'
    } else if n == 5 {
        '5'
    } else if n == 6 {
        '6'
    } else if n == 7 {
        '7'
    } else if n == 8 {
        '8'
    } else if n == 9 {
        '9'
    } else if n == 10 {
        'a'
    } else if n == 11 {
        'b'
    } else if n == 12 {
        'c'
    } else if n == 13 {
        'd'
    } else if n == 14 {
        'e'
    } else {
        'f'
    }
}

/// How one character stands inside a JSON string: quotes and backslashes
/// escaped, control characters as a `\u00..` sequence, everything else as
/// itself.
pub open spec fn escaped_char(c: char) -> Seq<char> {
    if c == '"' {
        seq!['\\', '"']
    } else if c == '\\' {
        seq!['\\', '\\']
    } else if (c as u32) < 32 {
        seq!['\\', 'u', '0', '0', hex_digit((c as int) / 16), hex_digit((c as int) % 16)]
    } else {
        seq![c]
    }
}

/// A character sequence, escaped for JSON.
pub open spec fn escape_chars(s: Seq<char>) -> Seq<char>
    decreases s.len(),
{
    if s.len() == 0 {
        Seq::empty()
    } else {
        escape_chars(s.drop_last()) + escaped_char(s.last())
    }
}

/// A JSON string literal: the escaped characters between quotes.
pub open spec fn json_string(s: Seq<char>) -> Seq<char> {
    seq!['"'] + escape_chars(s) + seq!['"']
}

/// The decimal digits of a nonnegative value, most significant first.
pub open spec fn dec_digits(n: int) -> Seq<char>
    recommends
        n >= 0,
    decreases n,
{
    if n < 10 {
        seq![hex_digit(n)]
    } else {
        dec_digits(n / 10).push(hex_digit(n % 10))
    }
}

/// Escape a string for use inside a JSON string literal.
fn escape_json_fragment(s: &str) -> (r: String)
    ensures
        r@ == escape_chars(s@),
{
    let mut out = String::new();
    let n = s.unicode_len();
    let mut i: usize = 0;
    while i < n
        invariant
            i <= n,
            n == s@.len(),
            out@ == escape_chars(s@.take(i as int)),
        decreases n - i,
    {
        let c = s.get_char(i);
        if c == '"' {
            push_char(&mut out, '\\');
            push_char(&mut out, '"');
        } else if c == '\\' {
            push_char(&mut out, '\\');
            push_char(&mut out, '\\');
        } else if (c as u32) < 32 {
            push_char(&mut out, '\\');
            push_char(&mut out, 'u');
            push_char(&mut out, '0');
            push_char(&mut out, '0');
            push_char(&mut out, hex_digit_char((c as u32) / 16));
            push_char(&mut out, hex_digit_char((c as u32) % 16));
        } else {
            push_char(&mut out, c);
        }
        proof {
            assert(s@.take(i + 1).drop_last() =~= s@.take(i as int));
            assert(s@.take(i + 1).last() == s@[i as int]);
            assert(out@ =~= escape_chars(s@.take(i + 1)));
        }
        i += 1;
    }
    proof {
        assert(s@.take(n as int) =~= s@);
    }
    out
}

/// Append the decimal rendering of a value.
fn append_decimal(out: &mut String, n: u64)
    ensures
        final(out)@ == old(out)@ + dec_digits(n as int),
    decreases n,
{
    if n < 10 {
        push_char(out, hex_digit_char(n as u32));
        assert(final(out)@ =~= old(out)@ + dec_digits(n as int));
    } else {
        assert(n / 10 < n) by (nonlinear_arith)
            requires
                n >= 10,
        ;
        append_decimal(out, n / 10);
        push_char(out, hex_digit_char((n % 10) as u32));
        assert(final(out)@ =~= old(out)@ + dec_digits(n as int));
    }
}

/// Append a JSON string literal holding the given text.
fn append_json_string(out: &mut String, s: &str)
    ensures
        final(out)@ == old(out)@ + json_string(s@),
{
    push_char(out, '"');
    let esc = escape_json_fragment(s);
    out.append(esc.as_str());
    push_char(out, '"');
    assert(final(out)@ =~= old(out)@ + json_string(s@));
}

/// The JSON object of one search record.
pub open spec fn json_search_record(v: (Seq<char>, u32, Timestamp)) -> Seq<char> {
    "{\"normalized_term\":"@ + json_string(v.0) + ",\"visit_count\":"@ + dec_digits(v.1 as int)
        + ",\"last_visit_time\":\""@ + rfc3339_of(v.2.micros_since_unix_epoch as int) + "\"}"@
}

/// The JSON object of one visit record.
pub open spec fn json_visit_record(v: (Seq<char>, Timestamp, u64)) -> Seq<char> {
    "{\"url\":"@ + json_string(v.0) + ",\"visit_time\":\""@ + rfc3339_of(
        v.1.micros_since_unix_epoch as int,
    ) + "\",\"visit_duration\":"@ + dec_digits(v.2 as int) + "}"@
}

/// The given texts joined with commas.
pub open spec fn comma_joined(items: Seq<Seq<char>>) -> Seq<char>
    decreases items.len(),
{
    if items.len() == 0 {
        Seq::empty()
    } else if items.len() == 1 {
        items[0]
    } else {
        comma_joined(items.drop_last()) + ","@ + items.last()
    }
}

/// The JSON array of a sequence of search records.
pub open spec fn spec_search_json(rs: Seq<(Seq<char>, u32, Timestamp)>) -> Seq<char> {
    "["@ + comma_joined(rs.map_values(|v: (Seq<char>, u32, Timestamp)| json_search_record(v)))
        + "]"@
}

/// The JSON array of a sequence of visit records.
pub open spec fn spec_visit_json(rs: Seq<(Seq<char>, Timestamp, u64)>) -> Seq<char> {
    "["@ + comma_joined(rs.map_values(|v: (Seq<char>, Timestamp, u64)| json_visit_record(v)))
        + "]"@
}

fn append_search_record(out: &mut String, r: &SearchRecord)
    requires
        r.last_visit_time.is_valid(),
    ensures
        final(out)@ == old(out)@ + json_search_record(search_rec_view(*r)),
{
    out.append("{\"normalized_term\":");
    append_json_string(out, r.normalized_term.as_str());
    out.append(",\"visit_count\":");
    append_decimal(out, r.visit_count as u64);
    out.append(",\"last_visit_time\":\"");
    let ts = format_rfc3339_micros(&r.last_visit_time);
    out.append(ts.as_str());
    out.append("\"}");
    assert(final(out)@ =~= old(out)@ + json_search_record(search_rec_view(*r)));
}

fn append_visit_record(out: &mut String, r: &VisitRecord)
    requires
        r.visit_time.is_valid(),
    ensures
        final(out)@ == old(out)@ + json_visit_record(visit_rec_view(*r)),
{
    out.append("{\"url\":");
    append_json_string(out, r.url.as_str());
    out.append(",\"visit_time\":\"");
    let ts = format_rfc3339_micros(&r.visit_time);
    out.append(ts.as_str());
    out.append("\",\"visit_duration\":");
    append_decimal(out, r.visit_duration);
    out.append("}");
    assert(final(out)@ =~= old(out)@ + json_visit_record(visit_rec_view(*r)));
}

/// Serialize search records to a JSON array, in sequence order.
pub fn search_records_to_json(records: &Vec<SearchRecord>) -> (j: String)
    requires
        forall|k: int| 0 <= k < records@.len() ==> (#[trigger] records@[k]).last_visit_time.is_valid(),
    ensures
        j@ == spec_search_json(search_views(records@)),
{
    let ghost f = |v: (Seq<char>, u32, Timestamp)| json_search_record(v);
    let mut out = String::new();
    push_char(&mut out, '[');
    let mut i: usize = 0;
    while i < records.len()
        invariant
            i <= records@.len(),
            forall|k: int|
                0 <= k < records@.len() ==> (#[trigger] records@[k]).last_visit_time.is_valid(),
            f == (|v: (Seq<char>, u32, Timestamp)| json_search_record(v)),
            out@ == seq!['['] + comma_joined(search_views(records@.take(i as int)).map_values(f)),
        decreases records@.len() - i,
    {
        if i > 0 {
            push_char(&mut out, ',');
        }
        append_search_record(&mut out, &records[i]);
        proof {
            reveal_strlit(",");
            let items = search_views(records@.take(i as int)).map_values(f);
            let items1 = search_views(records@.take(i + 1)).map_values(f);
            assert(items1.drop_last() =~= items);
            assert(items1.last() == f(search_rec_view(records@[i as int])));
            assert(out@ =~= seq!['['] + comma_joined(items1));
        }
        i += 1;
    }
    push_char(&mut out, ']');
    proof {
        assert(records@.take(records@.len() as int) =~= records@);
        reveal_strlit("[");
        reveal_strlit("]");
        assert(out@ =~= spec_search_json(search_views(records@)));
    }
    out
}

/// Serialize visit records to a JSON array, in sequence order.
pub fn visit_records_to_json(records: &Vec<VisitRecord>) -> (j: String)
    requires
        forall|k: int| 0 <= k < records@.len() ==> (#[trigger] records@[k]).visit_time.is_valid(),
    ensures
        j@ == spec_visit_json(visit_views(records@)),
{
    let ghost f = |v: (Seq<char>, Timestamp, u64)| json_visit_record(v);
    let mut out = String::new();
    push_char(&mut out, '[');
    let mut i: usize = 0;
    while i < records.len()
        invariant
            i <= records@.len(),
            forall|k: int|
                0 <= k < records@.len() ==> (#[trigger] records@[k]).visit_time.is_valid(),
            f == (|v: (Seq<char>, Timestamp, u64)| json_visit_record(v)),
            out@ == seq!['['] + comma_joined(visit_views(records@.take(i as int)).map_values(f)),
        decreases records@.len() - i,
    {
        if i > 0 {
            push_char(&mut out, ',');
        }
        append_visit_record(&mut out, &records[i]);
        proof {
            reveal_strlit(",");
            let items = visit_views(records@.take(i as int)).map_values(f);
            let items1 = visit_views(records@.take(i + 1)).map_values(f);
            assert(items1.drop_last() =~= items);
            assert(items1.last() == f(visit_rec_view(records@[i as int])));
            assert(out@ =~= seq!['['] + comma_joined(items1));
        }
        i += 1;
    }
    push_char(&mut out, ']');
    proof {
        assert(records@.take(records@.len() as int) =~= records@);
        reveal_strlit("[");
        reveal_strlit("]");
        assert(out@ =~= spec_visit_json(visit_views(records@)));
    }
    out
}

/// Serializing an empty sequence of either record type yields the empty
/// JSON array.
pub proof fn lemma_empty_json_array()
    ensures
        spec_search_json(Seq::empty()) == "[]"@,
        spec_visit_json(Seq::empty()) == "[]"@,
{
    reveal_strlit("[");
    reveal_strlit("]");
    reveal_strlit("[]");
    assert(Seq::<(Seq<char>, u32, Timestamp)>::empty().map_values(
        |v: (Seq<char>, u32, Timestamp)| json_search_record(v),
    ) =~= Seq::<Seq<char>>::empty());
    assert(Seq::<(Seq<char>, Timestamp, u64)>::empty().map_values(
        |v: (Seq<char>, Timestamp, u64)| json_visit_record(v),
    ) =~= Seq::<Seq<char>>::empty());
    assert(spec_search_json(Seq::empty()) =~= "[]"@);
    assert(spec_visit_json(Seq::empty()) =~= "[]"@);
}

} // verus!
