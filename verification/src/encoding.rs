//! How a ping is written down: the decimal form of its identifier, the path
//! it is submitted to, and the bytes of its payload.

use vstd::prelude::*;
use vstd::utf8::encode_utf8;
use crate::metrics::{Metric, MetricValue, Record};

verus! {

/// The text of one decimal digit.
pub open spec fn digit_text(d: nat) -> Seq<char> {
    if d == 0 {
        "0"@
    } else if d == 1 {
        "1"@
    } else if d == 2 {
        "2"@
    } else if d == 3 {
        "3"@
    } else if d == 4 {
        "4"@
    } else if d == 5 {
        "5"@
    } else if d == 6 {
        "6"@
    } else if d == 7 {
        "7"@
    } else if d == 8 {
        "8"@
    } else {
        "9"@
    }
}

/// The decimal form of a number, without leading zeros.
pub open spec fn spec_decimal(n: nat) -> Seq<char>
    decreases n,
{
    if n < 10 {
        digit_text(n)
    } else {
        spec_decimal(n / 10) + digit_text(n % 10)
    }
}

/// The path that a ping is submitted to.
pub open spec fn spec_path(application_id: Seq<char>, ping_name: Seq<char>, document_id: nat) -> Seq<
    char,
> {
    "/submit/"@ + application_id + "/"@ + ping_name + "/1/"@ + spec_decimal(document_id)
}

/// The bytes of a value.
pub open spec fn spec_value_bytes(v: MetricValue) -> Seq<u8> {
    match v {
        MetricValue::Boolean(b) => if b {
            encode_utf8("true"@)
        } else {
            encode_utf8("false"@)
        },
        MetricValue::Counter(c) => encode_utf8(spec_decimal(c)),
        MetricValue::Text(s) => encode_utf8(s),
    }
}

/// The bytes of a label, with the stroke that sets it off from the name.
pub open spec fn spec_label_bytes(label: Option<Seq<char>>) -> Seq<u8> {
    match label {
        Some(l) => seq![47u8] + encode_utf8(l),
        None => Seq::empty(),
    }
}

/// The line that stands for one record: its category, a dot, its name, its
/// label behind a stroke where it has one, an equals sign, its value, and a
/// line feed.
pub open spec fn spec_record_line(r: Record) -> Seq<u8> {
    encode_utf8(r.key@.category) + seq![46u8] + encode_utf8(r.key@.name) + spec_label_bytes(
        r.key@.label,
    ) + seq![61u8] + spec_value_bytes(r.value@) + seq![10u8]
}

/// The body of a ping: the lines of its records, one after another.
pub open spec fn spec_payload_bytes(records: Seq<Record>) -> Seq<u8>
    decreases records.len(),
{
    if records.len() == 0 {
        Seq::empty()
    } else {
        spec_payload_bytes(records.drop_last()) + spec_record_line(records.last())
    }
}

/// The text of the decimal digit `d`.
fn digit_str(d: u64) -> (s: &'static str)
    ensures
        s@ == digit_text(d as nat),
{
    if d == 0 {
        "0"
    } else if d == 1 {
        "1"
    } else if d == 2 {
        "2"
    } else if d == 3 {
        "3"
    } else if d == 4 {
        "4"
    } else if d == 5 {
        "5"
    } else if d == 6 {
        "6"
    } else if d == 7 {
        "7"
    } else if d == 8 {
        "8"
    } else {
        "9"
    }
}

/// Appends the decimal form of `n` to `out`.
pub fn push_decimal(out: &mut String, n: u64)
    ensures
        final(out)@ == old(out)@ + spec_decimal(n as nat),
    decreases n,
{
    if n >= 10 {
        push_decimal(out, n / 10);
    }
    out.append(digit_str(n % 10));
    assert(out@ =~= old(out)@ + spec_decimal(n as nat));
}

/// The decimal form of `n`, without leading zeros.
pub fn to_decimal(n: u64) -> (s: String)
    ensures
        s@ == spec_decimal(n as nat),
{
    let mut s = String::new();
    push_decimal(&mut s, n);
    assert(s@ =~= spec_decimal(n as nat));
    s
}

/// The path that the ping `ping_name` of the application `application_id` is
/// submitted to under the identifier `document_id`.
pub fn make_path(application_id: &String, ping_name: &String, document_id: u64) -> (path: String)
    ensures
        path@ == spec_path(application_id@, ping_name@, document_id as nat),
{
    let mut path = "/submit/".to_owned();
    path.append(application_id.as_str());
    path.append("/");
    path.append(ping_name.as_str());
    path.append("/1/");
    push_decimal(&mut path, document_id);
    path
}

/// Appends the bytes of `text` to `out`.
fn push_text(out: &mut Vec<u8>, text: &str)
    ensures
        final(out)@ == old(out)@ + encode_utf8(text@),
{
    let mut bytes = text.as_bytes_vec();
    out.append(&mut bytes);
}

/// Appends the bytes of `value` to `out`.
fn push_value(out: &mut Vec<u8>, value: &Metric)
    ensures
        final(out)@ == old(out)@ + spec_value_bytes(value@),
{
    match value {
        Metric::Boolean(b) => {
            if *b {
                push_text(out, "true");
            } else {
                push_text(out, "false");
            }
        },
        Metric::Counter(c) => {
            let text = to_decimal(*c);
            push_text(out, text.as_str());
        },
        Metric::Text(s) => {
            push_text(out, s.as_str());
        },
    }
}

/// Appends the line of `record` to `out`.
fn push_record_line(out: &mut Vec<u8>, record: &Record)
    ensures
        final(out)@ == old(out)@ + spec_record_line(*record),
{
    push_text(out, record.key.category.as_str());
    out.push(46u8);
    push_text(out, record.key.name.as_str());
    match &record.key.label {
        Some(l) => {
            out.push(47u8);
            push_text(out, l.as_str());
        },
        None => {},
    }
    out.push(61u8);
    push_value(out, &record.value);
    out.push(10u8);
    assert(out@ =~= old(out)@ + spec_record_line(*record));
}

/// The body of a ping that carries `records`.
pub fn encode_payload(records: &Vec<Record>) -> (body: Vec<u8>)
    ensures
        body@ == spec_payload_bytes(records@),
{
    let mut body: Vec<u8> = Vec::new();
    let mut i: usize = 0;
    while i < records.len()
        invariant
            i <= records@.len(),
            body@ == spec_payload_bytes(records@.take(i as int)),
        decreases records@.len() - i,
    {
        assert(records@.take(i as int + 1).drop_last() =~= records@.take(i as int));
        push_record_line(&mut body, &records[i]);
        i = i + 1;
    }
    assert(records@.take(i as int) =~= records@);
    body
}

} // verus!
