//! The line decoder: turns one datagram into a telemetry sample, a
//! disconnect signal, or a malformed verdict, and writes telemetry lines
//! back out.
//!
//! One line is one command. `bye` is the disconnect signal. A telemetry
//! command is the token `telem`, one space, and five comma-separated
//! fields: name, vehicle identifier, indicated airspeed, barometric
//! altitude and sample time; content after the fifth field is ignored.
//! Anything else, including bytes that are not UTF-8, is malformed and
//! never changes any state.

use vstd::prelude::*;
use vstd::utf8::decode_utf8;
use vstd::utf8::valid_utf8;

use crate::numbers::decimal_milli;
use crate::numbers::digits_val;
use crate::numbers::lemma_decode_render_milli;
use crate::numbers::lemma_digit_chars_plain;
use crate::numbers::lemma_render_u64;
use crate::numbers::render_milli;
use crate::numbers::render_milli_spec;
use crate::numbers::render_u64;
use crate::numbers::render_u64_spec;
use crate::numbers::parse_milli;
use crate::numbers::parse_u64_digits;
use crate::numbers::valid_number_field;
use crate::numbers::valid_u64_field;
use crate::numbers::MAX_MILLI;

verus! {

pub open spec fn bye_line() -> Seq<char> {
    seq!['b', 'y', 'e']
}

pub open spec fn telem_prefix() -> Seq<char> {
    seq!['t', 'e', 'l', 'e', 'm', ' ']
}

/// Splits a character sequence at every comma; always at least one part.
pub open spec fn comma_split(s: Seq<char>) -> Seq<Seq<char>>
    decreases s.len(),
{
    if s.len() == 0 {
        seq![Seq::<char>::empty()]
    } else if s[0] == ',' {
        seq![Seq::<char>::empty()] + comma_split(s.drop_first())
    } else {
        let r = comma_split(s.drop_first());
        seq![seq![s[0]] + r[0]] + r.drop_first()
    }
}

pub proof fn lemma_comma_split_len(s: Seq<char>)
    ensures
        comma_split(s).len() >= 1,
    decreases s.len(),
{
    if s.len() > 0 {
        lemma_comma_split_len(s.drop_first());
    }
}

/// A comma-free sequence is a single field.
pub proof fn lemma_comma_split_no_comma(s: Seq<char>)
    requires
        forall|j: int| 0 <= j < s.len() ==> s[j] != ',',
    ensures
        comma_split(s) == seq![s],
    decreases s.len(),
{
    if s.len() == 0 {
        assert(s =~= Seq::<char>::empty());
        assert(comma_split(s) =~= seq![s]);
    } else {
        let d = s.drop_first();
        assert(forall|j: int| 0 <= j < d.len() ==> d[j] == s[j + 1]);
        lemma_comma_split_no_comma(d);
        lemma_comma_split_len(d);
        assert(seq![s[0]] + d =~= s);
        assert(comma_split(s) =~= seq![s]);
    }
}

/// Splitting starts with the text before the first comma as its own field.
pub proof fn lemma_comma_split_concat(a: Seq<char>, rest: Seq<char>)
    requires
        forall|j: int| 0 <= j < a.len() ==> a[j] != ',',
    ensures
        comma_split(a + seq![','] + rest) == seq![a] + comma_split(rest),
    decreases a.len(),
{
    let s = a + seq![','] + rest;
    if a.len() == 0 {
        assert(s[0] == ',');
        assert(s.drop_first() =~= rest);
        assert(a =~= Seq::<char>::empty());
        assert(comma_split(s) =~= seq![a] + comma_split(rest));
    } else {
        assert(s[0] == a[0]);
        assert(s[0] != ',');
        let d = a.drop_first();
        assert(forall|j: int| 0 <= j < d.len() ==> d[j] == a[j + 1]);
        assert(s.drop_first() =~= d + seq![','] + rest);
        lemma_comma_split_concat(d, rest);
        let r = comma_split(s.drop_first());
        assert(r == seq![d] + comma_split(rest));
        assert(r[0] == d);
        assert(r.drop_first() =~= comma_split(rest));
        assert(seq![s[0]] + r[0] =~= a);
        assert(comma_split(s) =~= seq![a] + comma_split(rest));
    }
}

/// No field produced by splitting holds a comma.
pub proof fn lemma_comma_split_comma_free(s: Seq<char>, k: int, j: int)
    requires
        0 <= k < comma_split(s).len(),
        0 <= j < comma_split(s)[k].len(),
    ensures
        comma_split(s)[k][j] != ',',
    decreases s.len(),
{
    if s.len() == 0 {
        // the single field is empty, so there is no such j
    } else if s[0] == ',' {
        if k > 0 {
            lemma_comma_split_comma_free(s.drop_first(), k - 1, j);
        }
    } else {
        let r = comma_split(s.drop_first());
        lemma_comma_split_len(s.drop_first());
        if k == 0 {
            assert(comma_split(s)[0] == seq![s[0]] + r[0]);
            if j == 0 {
                assert(comma_split(s)[0][0] == s[0]);
            } else {
                assert(comma_split(s)[0][j] == r[0][j - 1]);
                lemma_comma_split_comma_free(s.drop_first(), 0, j - 1);
            }
        } else {
            assert(comma_split(s)[k] == r[k]);
            lemma_comma_split_comma_free(s.drop_first(), k, j);
        }
    }
}

/// The five protocol fields of a telemetry line, after the command token.
pub open spec fn telem_fields(line: Seq<char>) -> Seq<Seq<char>> {
    comma_split(line.skip(6))
}

/// A telemetry command: the `telem ` prefix and at least five fields whose
/// numeric members all parse.
pub open spec fn is_telem_line(line: Seq<char>) -> bool {
    &&& line.len() >= 6
    &&& line.subrange(0, 6) == telem_prefix()
    &&& telem_fields(line).len() >= 5
    &&& valid_number_field(telem_fields(line)[2])
    &&& valid_number_field(telem_fields(line)[3])
    &&& valid_u64_field(telem_fields(line)[4])
}

/// Mathematical content of one telemetry sample.
pub struct SampleView {
    pub name: Seq<char>,
    pub vehicle: Seq<char>,
    pub ias_milli: int,
    pub alt_milli: int,
    pub sample_time: int,
}

pub open spec fn telem_sample_of(line: Seq<char>) -> SampleView {
    let f = telem_fields(line);
    SampleView {
        name: f[0],
        vehicle: f[1],
        ias_milli: decimal_milli(f[2]),
        alt_milli: decimal_milli(f[3]),
        sample_time: digits_val(f[4]),
    }
}

pub enum DecodedView {
    Bye,
    Telem(SampleView),
    Malformed,
}

/// Verdict on one line of text.
pub open spec fn classify(line: Seq<char>) -> DecodedView {
    if line == bye_line() {
        DecodedView::Bye
    } else if is_telem_line(line) {
        DecodedView::Telem(telem_sample_of(line))
    } else {
        DecodedView::Malformed
    }
}

/// Verdict on one raw datagram: bytes that are not UTF-8 are malformed.
pub open spec fn classify_datagram(bytes: Seq<u8>) -> DecodedView {
    if valid_utf8(bytes) {
        classify(decode_utf8(bytes))
    } else {
        DecodedView::Malformed
    }
}

/// One decoded flight-state record. Airspeed and altitude are stored in
/// exact thousandths of their raw sensor units.
pub struct TelemetrySample {
    pub name: String,
    pub vehicle: String,
    pub ias_milli: i64,
    pub alt_milli: i64,
    pub sample_time: u64,
}

impl TelemetrySample {
    /// Every decoded sample keeps its two quantities within the range the
    /// composer's unit conversions can take.
    pub open spec fn wf(self) -> bool {
        &&& -MAX_MILLI <= self.ias_milli <= MAX_MILLI
        &&& -MAX_MILLI <= self.alt_milli <= MAX_MILLI
    }
}

impl View for TelemetrySample {
    type V = SampleView;

    open spec fn view(&self) -> SampleView {
        SampleView {
            name: self.name@,
            vehicle: self.vehicle@,
            ias_milli: self.ias_milli as int,
            alt_milli: self.alt_milli as int,
            sample_time: self.sample_time as int,
        }
    }
}

/// Outcome of decoding one datagram.
pub enum Decoded {
    Bye,
    Telem(TelemetrySample),
    Malformed,
}

impl View for Decoded {
    type V = DecodedView;

    open spec fn view(&self) -> DecodedView {
        match self {
            Decoded::Bye => DecodedView::Bye,
            Decoded::Telem(t) => DecodedView::Telem(t@),
            Decoded::Malformed => DecodedView::Malformed,
        }
    }
}

fn find_comma(s: &str, from: usize) -> (r: Option<usize>)
    requires
        from <= s@.len(),
    ensures
        r matches Some(i) ==> from <= i < s@.len() && s@[i as int] == ',' && forall|j: int|
            from <= j < i ==> s@[j] != ',',
        r is None ==> forall|j: int| from <= j < s@.len() ==> s@[j] != ',',
{
    let n = s.unicode_len();
    let mut i: usize = from;
    while i < n
        invariant
            from <= i <= n,
            n == s@.len(),
            forall|j: int| from <= j < i ==> s@[j] != ',',
        decreases n - i,
    {
        if s.get_char(i) == ',' {
            return Some(i);
        }
        i = i + 1;
    }
    None
}

/// The raw text of the five protocol fields, before any numeric reading.
struct RawFields {
    name: String,
    vehicle: String,
    ias: String,
    alt: String,
    time: String,
}

/// Cuts the text after the command token into its five fields; text after
/// the fifth field is ignored.
#[verifier::rlimit(100)]
fn split_fields(s: &str) -> (r: Option<RawFields>)
    ensures
        r is Some <==> comma_split(s@).len() >= 5,
        r matches Some(f) ==> {
            let cs = comma_split(s@);
            &&& f.name@ == cs[0]
            &&& f.vehicle@ == cs[1]
            &&& f.ias@ == cs[2]
            &&& f.alt@ == cs[3]
            &&& f.time@ == cs[4]
        },
{
    let n = s.unicode_len();
    let ghost cs = comma_split(s@);
    let c0 = match find_comma(s, 0) {
        Some(i) => i,
        None => {
            proof {
                lemma_comma_split_no_comma(s@);
            }
            return None;
        },
    };
    let ghost a0 = s@.subrange(0, c0 as int);
    let ghost s1 = s@.subrange(c0 + 1, n as int);
    proof {
        assert(forall|j: int| 0 <= j < a0.len() ==> a0[j] == s@[j]);
        assert(s@ =~= a0 + seq![','] + s1);
        lemma_comma_split_concat(a0, s1);
        assert(cs == seq![a0] + comma_split(s1));
    }
    let c1 = match find_comma(s, c0 + 1) {
        Some(i) => i,
        None => {
            proof {
                assert(forall|j: int| 0 <= j < s1.len() ==> s1[j] == s@[j + c0 + 1]);
                lemma_comma_split_no_comma(s1);
            }
            return None;
        },
    };
    let ghost a1 = s@.subrange(c0 + 1, c1 as int);
    let ghost s2 = s@.subrange(c1 + 1, n as int);
    proof {
        assert(forall|j: int| 0 <= j < a1.len() ==> a1[j] == s@[j + c0 + 1]);
        assert(s1 =~= a1 + seq![','] + s2);
        lemma_comma_split_concat(a1, s2);
        assert(cs == seq![a0] + (seq![a1] + comma_split(s2)));
    }
    let c2 = match find_comma(s, c1 + 1) {
        Some(i) => i,
        None => {
            proof {
                assert(forall|j: int| 0 <= j < s2.len() ==> s2[j] == s@[j + c1 + 1]);
                lemma_comma_split_no_comma(s2);
            }
            return None;
        },
    };
    let ghost a2 = s@.subrange(c1 + 1, c2 as int);
    let ghost s3 = s@.subrange(c2 + 1, n as int);
    proof {
        assert(forall|j: int| 0 <= j < a2.len() ==> a2[j] == s@[j + c1 + 1]);
        assert(s2 =~= a2 + seq![','] + s3);
        lemma_comma_split_concat(a2, s3);
        assert(cs == seq![a0] + (seq![a1] + (seq![a2] + comma_split(s3))));
    }
    let c3 = match find_comma(s, c2 + 1) {
        Some(i) => i,
        None => {
            proof {
                assert(forall|j: int| 0 <= j < s3.len() ==> s3[j] == s@[j + c2 + 1]);
                lemma_comma_split_no_comma(s3);
            }
            return None;
        },
    };
    let ghost a3 = s@.subrange(c2 + 1, c3 as int);
    let ghost s4 = s@.subrange(c3 + 1, n as int);
    proof {
        assert(forall|j: int| 0 <= j < a3.len() ==> a3[j] == s@[j + c2 + 1]);
        assert(s3 =~= a3 + seq![','] + s4);
        lemma_comma_split_concat(a3, s4);
        assert(cs == seq![a0] + (seq![a1] + (seq![a2] + (seq![a3] + comma_split(s4)))));
    }
    let end4 = match find_comma(s, c3 + 1) {
        Some(c4) => {
            let ghost a4 = s@.subrange(c3 + 1, c4 as int);
            let ghost s5 = s@.subrange(c4 + 1, n as int);
            proof {
                assert(forall|j: int| 0 <= j < a4.len() ==> a4[j] == s@[j + c3 + 1]);
                assert(s4 =~= a4 + seq![','] + s5);
                lemma_comma_split_concat(a4, s5);
                lemma_comma_split_len(s5);
            }
            c4
        },
        None => {
            proof {
                assert(forall|j: int| 0 <= j < s4.len() ==> s4[j] == s@[j + c3 + 1]);
                lemma_comma_split_no_comma(s4);
            }
            n
        },
    };
    proof {
        assert(cs.len() >= 5);
        assert(cs[0] == a0);
        assert(cs[1] == a1);
        assert(cs[2] == a2);
        assert(cs[3] == a3);
        assert(cs[4] == s@.subrange(c3 + 1, end4 as int));
    }
    let name = s.substring_char(0, c0).to_owned();
    let vehicle = s.substring_char(c0 + 1, c1).to_owned();
    let ias = s.substring_char(c1 + 1, c2).to_owned();
    let alt = s.substring_char(c2 + 1, c3).to_owned();
    let time = s.substring_char(c3 + 1, end4).to_owned();
    Some(RawFields { name, vehicle, ias, alt, time })
}

/// Decodes one line of text.
///
/// The result is exactly what `classify` says of the line: the disconnect
/// signal, a telemetry sample with its five fields, or malformed.
pub fn decode_line(s: &str) -> (r: Decoded)
    ensures
        r@ == classify(s@),
        r matches Decoded::Telem(t) ==> t.wf(),
{
    let n = s.unicode_len();
    let is_bye = if n == 3 {
        let b0 = s.get_char(0);
        let b1 = s.get_char(1);
        let b2 = s.get_char(2);
        b0 == 'b' && b1 == 'y' && b2 == 'e'
    } else {
        false
    };
    if is_bye {
        proof {
            assert(s@ =~= bye_line());
        }
        return Decoded::Bye;
    }
    proof {
        assert(s@ != bye_line()) by {
            if s@ == bye_line() {
                assert(s@.len() == 3);
                assert(s@[0] == 'b' && s@[1] == 'y' && s@[2] == 'e');
            }
        }
    }
    let has_prefix = if n >= 6 {
        let p0 = s.get_char(0);
        let p1 = s.get_char(1);
        let p2 = s.get_char(2);
        let p3 = s.get_char(3);
        let p4 = s.get_char(4);
        let p5 = s.get_char(5);
        p0 == 't' && p1 == 'e' && p2 == 'l' && p3 == 'e' && p4 == 'm' && p5 == ' '
    } else {
        false
    };
    if !has_prefix {
        proof {
            assert(!is_telem_line(s@)) by {
                if is_telem_line(s@) {
                    assert(s@.subrange(0, 6) == telem_prefix());
                    assert(s@[0] == telem_prefix()[0]);
                    assert(s@[1] == telem_prefix()[1]);
                    assert(s@[2] == telem_prefix()[2]);
                    assert(s@[3] == telem_prefix()[3]);
                    assert(s@[4] == telem_prefix()[4]);
                    assert(s@[5] == telem_prefix()[5]);
                }
            }
        }
        return Decoded::Malformed;
    }
    proof {
        assert(s@.subrange(0, 6) =~= telem_prefix());
    }
    let rest = s.substring_char(6, n);
    proof {
        assert(rest@ =~= s@.skip(6));
    }
    let f = match split_fields(rest) {
        Some(f) => f,
        None => {
            return Decoded::Malformed;
        },
    };
    let ias_milli = match parse_milli(f.ias.as_str()) {
        Some(v) => v,
        None => {
            return Decoded::Malformed;
        },
    };
    let alt_milli = match parse_milli(f.alt.as_str()) {
        Some(v) => v,
        None => {
            return Decoded::Malformed;
        },
    };
    let sample_time = match parse_u64_digits(f.time.as_str()) {
        Some(v) => v,
        None => {
            return Decoded::Malformed;
        },
    };
    let sample = TelemetrySample {
        name: f.name,
        vehicle: f.vehicle,
        ias_milli,
        alt_milli,
        sample_time,
    };
    proof {
        assert(is_telem_line(s@));
        assert(sample@ == telem_sample_of(s@));
    }
    Decoded::Telem(sample)
}

/// Relies on std::str::from_utf8: it succeeds exactly on valid UTF-8 and
/// then views the same bytes as text, without copying.
#[verifier::external_body]
fn bytes_as_str(v: &[u8]) -> (r: Option<&str>)
    ensures
        r is Some <==> valid_utf8(v@),
        r matches Some(s) ==> s@ == decode_utf8(v@),
{
    std::str::from_utf8(v).ok()
}

/// The telemetry line that writes a sample's five values back out, with
/// each quantity in its canonical numeral.
pub open spec fn encode_line_spec(
    name: Seq<char>,
    vehicle: Seq<char>,
    ias_milli: int,
    alt_milli: int,
    sample_time: int,
) -> Seq<char> {
    telem_prefix() + name + seq![','] + vehicle + seq![','] + render_milli_spec(ias_milli)
        + seq![','] + render_milli_spec(alt_milli) + seq![','] + render_u64_spec(sample_time)
}

/// Writes a telemetry line for the given five values.
pub fn encode_telem_line(
    name: &str,
    vehicle: &str,
    ias_milli: i64,
    alt_milli: i64,
    sample_time: u64,
) -> (r: String)
    requires
        -MAX_MILLI <= ias_milli <= MAX_MILLI,
        -MAX_MILLI <= alt_milli <= MAX_MILLI,
    ensures
        r@ == encode_line_spec(
            name@,
            vehicle@,
            ias_milli as int,
            alt_milli as int,
            sample_time as int,
        ),
{
    proof {
        reveal_strlit("telem ");
        reveal_strlit(",");
    }
    let mut out = String::from_str("telem ");
    out.append(name);
    out.append(",");
    out.append(vehicle);
    out.append(",");
    let ias = render_milli(ias_milli);
    out.append(ias.as_str());
    out.append(",");
    let alt = render_milli(alt_milli);
    out.append(alt.as_str());
    out.append(",");
    let time = render_u64(sample_time);
    out.append(time.as_str());
    proof {
        assert(out@ =~= encode_line_spec(
            name@,
            vehicle@,
            ias_milli as int,
            alt_milli as int,
            sample_time as int,
        ));
    }
    out
}

/// Round trip: a telemetry line written for five values decodes back to a
/// sample holding exactly those five values, so long as the two text
/// fields are comma-free and the quantities are within carried range.
#[verifier::rlimit(100)]
pub proof fn lemma_encode_decode_round_trip(
    name: Seq<char>,
    vehicle: Seq<char>,
    ias_milli: int,
    alt_milli: int,
    sample_time: int,
)
    requires
        forall|j: int| 0 <= j < name.len() ==> name[j] != ',',
        forall|j: int| 0 <= j < vehicle.len() ==> vehicle[j] != ',',
        -MAX_MILLI <= ias_milli <= MAX_MILLI,
        -MAX_MILLI <= alt_milli <= MAX_MILLI,
        0 <= sample_time <= u64::MAX,
    ensures
        classify(encode_line_spec(name, vehicle, ias_milli, alt_milli, sample_time))
            == DecodedView::Telem(
            SampleView { name, vehicle, ias_milli, alt_milli, sample_time },
        ),
{
    let line = encode_line_spec(name, vehicle, ias_milli, alt_milli, sample_time);
    let rm1 = render_milli_spec(ias_milli);
    let rm2 = render_milli_spec(alt_milli);
    let rt = render_u64_spec(sample_time);
    lemma_decode_render_milli(ias_milli);
    lemma_decode_render_milli(alt_milli);
    lemma_render_u64(sample_time);
    lemma_digit_chars_plain(rt);
    assert(line.len() >= 6);
    assert(line.subrange(0, 6) =~= telem_prefix());
    assert(line != bye_line()) by {
        assert(line.len() > 3);
    }
    let t2 = rm2 + seq![','] + rt;
    let t1 = rm1 + seq![','] + t2;
    let t0 = vehicle + seq![','] + t1;
    let tail = name + seq![','] + t0;
    assert(line.skip(6) =~= tail);
    lemma_comma_split_concat(name, t0);
    lemma_comma_split_concat(vehicle, t1);
    lemma_comma_split_concat(rm1, t2);
    lemma_comma_split_concat(rm2, rt);
    lemma_comma_split_no_comma(rt);
    let f = telem_fields(line);
    assert(f == seq![name] + (seq![vehicle] + (seq![rm1] + (seq![rm2] + seq![rt]))));
    assert(f.len() == 5);
    assert(f[0] == name && f[1] == vehicle && f[2] == rm1 && f[3] == rm2 && f[4] == rt);
    assert(is_telem_line(line));
    assert(telem_sample_of(line) == SampleView {
        name,
        vehicle,
        ias_milli,
        alt_milli,
        sample_time,
    });
}

/// Round trip seen from a received line: the five values decoded from a
/// valid telemetry line re-encode to a line that decodes to exactly those
/// five values again.
pub proof fn lemma_decode_encode_round_trip(line: Seq<char>)
    requires
        is_telem_line(line),
    ensures
        ({
            let t = telem_sample_of(line);
            classify(
                encode_line_spec(t.name, t.vehicle, t.ias_milli, t.alt_milli, t.sample_time),
            ) == DecodedView::Telem(t)
        }),
{
    let t = telem_sample_of(line);
    let rest = line.skip(6);
    assert forall|j: int| 0 <= j < t.name.len() implies t.name[j] != ',' by {
        lemma_comma_split_comma_free(rest, 0, j);
    }
    assert forall|j: int| 0 <= j < t.vehicle.len() implies t.vehicle[j] != ',' by {
        lemma_comma_split_comma_free(rest, 1, j);
    }
    crate::numbers::lemma_digits_val_nonneg(telem_fields(line)[4]);
    lemma_encode_decode_round_trip(t.name, t.vehicle, t.ias_milli, t.alt_milli, t.sample_time);
}

/// Decodes one raw datagram, rejecting bytes that are not UTF-8.
pub fn decode_datagram(input: &[u8]) -> (r: Decoded)
    ensures
        r@ == classify_datagram(input@),
        r matches Decoded::Telem(t) ==> t.wf(),
{
    match bytes_as_str(input) {
        Some(s) => decode_line(s),
        None => Decoded::Malformed,
    }
}

} // verus!
