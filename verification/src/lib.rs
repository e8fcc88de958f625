//! A reader and filter for the binary DLT (Diagnostic Log and Trace)
//! automotive log format.
//!
//! The crate decodes a byte buffer holding a stream of DLT records, offers
//! each decoded message to a filter set, and renders surviving messages as
//! delimited output lines.

pub mod cli;
pub mod config;
pub mod dlt;

use vstd::prelude::*;
use vstd::string::{StrSliceExecFns, StringExecFns};
use crate::dlt::filter::{names_of_all, Capture};
use crate::dlt::payload::{Value, ValueModel};
use crate::dlt::{msg_model, Message, MessageModel};

verus! {

/// Whether two string slices hold the same characters.
pub fn str_eq(a: &str, b: &str) -> (r: bool)
    ensures
        r == (a@ == b@),
{
    let n = a.unicode_len();
    let m = b.unicode_len();
    if n != m {
        return false;
    }
    let mut i: usize = 0;
    while i < n
        invariant
            n == a@.len(),
            n == b@.len(),
            i <= n,
            forall|k: int| 0 <= k < i ==> a@[k] == b@[k],
        decreases n - i,
    {
        if a.get_char(i) != b.get_char(i) {
            return false;
        }
        i = i + 1;
    }
    proof {
        assert(a@ =~= b@);
    }
    true
}

/// Relies on `String::push`: it appends exactly one character.
#[verifier::external_body]
fn push_char(s: &mut String, c: char)
    ensures
        final(s)@ == old(s)@.push(c),
{
    s.push(c);
}

/// The decimal digits of `n`, as ASCII bytes, most significant first.
pub open spec fn dec_bytes(n: nat) -> Seq<u8>
    decreases n,
{
    if n < 10 {
        seq![(48 + n) as u8]
    } else {
        dec_bytes(n / 10) + seq![(48 + n % 10) as u8]
    }
}

/// The decimal rendering of `n`, as characters.
pub open spec fn decoded_digits(n: nat) -> Seq<char> {
    Seq::new(dec_bytes(n).len(), |i: int| dec_bytes(n)[i] as char)
}

proof fn lemma_dec_bytes_ascii(n: nat)
    ensures
        forall|i: int| 0 <= i < dec_bytes(n).len() ==> 48 <= #[trigger] dec_bytes(n)[i] < 58,
    decreases n,
{
    if n >= 10 {
        lemma_dec_bytes_ascii(n / 10);
        let a = dec_bytes(n / 10);
        let b = seq![(48 + n % 10) as u8];
        assert forall|i: int| 0 <= i < dec_bytes(n).len() implies 48 <= #[trigger] dec_bytes(
            n,
        )[i] < 58 by {
            if i < a.len() {
                assert(dec_bytes(n)[i] == a[i]);
            } else {
                assert(dec_bytes(n)[i] == b[i - a.len()]);
            }
        }
    }
}

/// ASCII bytes decode as UTF-8 to the same code points, one per byte.
proof fn lemma_ascii_decode(bytes: Seq<u8>)
    requires
        forall|i: int| 0 <= i < bytes.len() ==> #[trigger] bytes[i] < 0x80,
    ensures
        vstd::utf8::valid_utf8(bytes),
        vstd::utf8::decode_utf8(bytes) == Seq::new(bytes.len(), |i: int| bytes[i] as char),
{
    let cs = Seq::new(bytes.len(), |i: int| bytes[i] as char);
    assert forall|i: int| 0 <= i < cs.len() implies '\0' <= #[trigger] cs[i] <= '\u{7f}' by {
        assert(bytes[i] < 0x80);
        assert(cs[i] == bytes[i] as char);
    }
    assert(vstd::utf8::is_ascii_chars(cs));
    vstd::utf8::is_ascii_chars_encode_utf8(cs);
    assert(vstd::utf8::encode_utf8(cs) =~= bytes);
    vstd::utf8::encode_utf8_valid_utf8(cs);
    vstd::utf8::encode_utf8_decode_utf8(cs);
}

/// Renders an unsigned 32-bit value in decimal.
fn u32_dec_bytes(n: u32) -> (r: Vec<u8>)
    ensures
        r@ == dec_bytes(n as nat),
    decreases n,
{
    if n < 10 {
        let mut v: Vec<u8> = Vec::new();
        v.push((48 + n) as u8);
        proof {
            assert(v@ =~= dec_bytes(n as nat));
        }
        v
    } else {
        let mut v = u32_dec_bytes(n / 10);
        v.push((48 + n % 10) as u8);
        proof {
            assert(v@ =~= dec_bytes(n as nat));
        }
        v
    }
}

pub fn u32_to_string(n: u32) -> (r: String)
    ensures
        r@ == decoded_digits(n as nat),
{
    let bytes = u32_dec_bytes(n);
    proof {
        lemma_dec_bytes_ascii(n as nat);
        lemma_ascii_decode(bytes@);
    }
    match crate::dlt::cursor::bytes_to_string(bytes) {
        Some(s) => s,
        None => vstd::pervasive::unreached(),
    }
}

/// The parts joined with a single delimiter between neighbours.
pub open spec fn join_with(parts: Seq<Seq<char>>, d: char) -> Seq<char>
    decreases parts.len(),
{
    if parts.len() == 0 {
        Seq::empty()
    } else if parts.len() == 1 {
        parts[0]
    } else {
        parts[0] + seq![d] + join_with(parts.drop_first(), d)
    }
}

/// Joining one more part appends one delimiter and the part, except to an
/// empty list.
pub proof fn lemma_join_push(parts: Seq<Seq<char>>, p: Seq<char>, d: char)
    ensures
        join_with(parts.push(p), d) == (if parts.len() == 0 {
            p
        } else {
            join_with(parts, d) + seq![d] + p
        }),
    decreases parts.len(),
{
    if parts.len() == 0 {
        assert(parts.push(p).len() == 1);
        assert(parts.push(p)[0] == p);
    } else {
        assert(parts.push(p).drop_first() =~= parts.drop_first().push(p));
        lemma_join_push(parts.drop_first(), p, d);
        if parts.len() == 1 {
            assert(join_with(parts.push(p), d) == parts[0] + seq![d] + join_with(
                parts.drop_first().push(p),
                d,
            ));
            assert(parts.drop_first().len() == 0);
            assert(join_with(parts, d) == parts[0]);
        } else {
            assert(join_with(parts.push(p), d) == parts[0] + seq![d] + join_with(
                parts.drop_first().push(p),
                d,
            ));
            assert(join_with(parts.drop_first().push(p), d) == join_with(parts.drop_first(), d)
                + seq![d] + p);
            assert(parts[0] + seq![d] + (join_with(parts.drop_first(), d) + seq![d] + p) =~= (
            parts[0] + seq![d] + join_with(parts.drop_first(), d)) + seq![d] + p);
        }
    }
}

/// How many times `c` occurs in `s`.
pub open spec fn count_char(s: Seq<char>, c: char) -> int
    decreases s.len(),
{
    if s.len() == 0 {
        0
    } else {
        (if s[0] == c {
            1int
        } else {
            0int
        }) + count_char(s.drop_first(), c)
    }
}

/// The total number of occurrences of `c` inside the parts themselves.
pub open spec fn count_char_parts(parts: Seq<Seq<char>>, c: char) -> int
    decreases parts.len(),
{
    if parts.len() == 0 {
        0
    } else {
        count_char(parts[0], c) + count_char_parts(parts.drop_first(), c)
    }
}

proof fn lemma_count_char_concat(a: Seq<char>, b: Seq<char>, c: char)
    ensures
        count_char(a + b, c) == count_char(a, c) + count_char(b, c),
    decreases a.len(),
{
    if a.len() == 0 {
        assert(a + b =~= b);
    } else {
        assert((a + b).drop_first() =~= a.drop_first() + b);
        lemma_count_char_concat(a.drop_first(), b, c);
        assert((a + b)[0] == a[0]);
    }
}

/// A joined line holds exactly one delimiter per boundary between parts,
/// plus whatever delimiters the parts hold themselves.
pub proof fn lemma_join_delimiter_count(parts: Seq<Seq<char>>, d: char)
    requires
        parts.len() > 0,
    ensures
        count_char(join_with(parts, d), d) == parts.len() - 1 + count_char_parts(parts, d),
    decreases parts.len(),
{
    if parts.len() == 1 {
        assert(count_char_parts(parts.drop_first(), d) == 0);
    } else {
        lemma_join_delimiter_count(parts.drop_first(), d);
        lemma_count_char_concat(parts[0] + seq![d], join_with(parts.drop_first(), d), d);
        lemma_count_char_concat(parts[0], seq![d], d);
        assert(count_char(seq![d], d) == 1) by {
            assert(seq![d].drop_first() =~= Seq::<char>::empty());
            assert(count_char(Seq::<char>::empty(), d) == 0);
        };
        assert(parts[0] + seq![d] + join_with(parts.drop_first(), d) =~= (parts[0] + seq![d])
            + join_with(parts.drop_first(), d));
    }
}

/// The mathematical shape of an output field.
pub enum FieldModel {
    Ecu,
    App,
    Ctx,
    Time,
    Timestamp,
    Payload,
    Capture(Seq<char>),
}

/// One field of an output line: a structural message field, the payload
/// strings, or a named regex capture.
#[derive(Debug)]
pub enum OutputField {
    Ecu,
    App,
    Ctx,
    Time,
    Timestamp,
    Payload,
    Capture(String),
}

impl View for OutputField {
    type V = FieldModel;

    open spec fn view(&self) -> FieldModel {
        match self {
            OutputField::Ecu => FieldModel::Ecu,
            OutputField::App => FieldModel::App,
            OutputField::Ctx => FieldModel::Ctx,
            OutputField::Time => FieldModel::Time,
            OutputField::Timestamp => FieldModel::Timestamp,
            OutputField::Payload => FieldModel::Payload,
            OutputField::Capture(name) => FieldModel::Capture(name@),
        }
    }
}

impl DeepView for OutputField {
    type V = FieldModel;

    open spec fn deep_view(&self) -> FieldModel {
        self.view()
    }
}

/// The field a format-string component names, if any: one of the fixed
/// names, or an angle-bracketed capture reference.
pub open spec fn spec_field_of(s: Seq<char>) -> Option<FieldModel> {
    if s == "ecu"@ {
        Some(FieldModel::Ecu)
    } else if s == "app"@ {
        Some(FieldModel::App)
    } else if s == "ctx"@ {
        Some(FieldModel::Ctx)
    } else if s == "time"@ {
        Some(FieldModel::Time)
    } else if s == "timestamp"@ {
        Some(FieldModel::Timestamp)
    } else if s == "payload"@ {
        Some(FieldModel::Payload)
    } else if s.len() >= 2 && s[0] == '<' && s.last() == '>' {
        Some(FieldModel::Capture(s.subrange(1, s.len() - 1)))
    } else {
        None
    }
}

impl OutputField {
    /// Parses one component of a format string.
    pub fn from(input: &str) -> (r: Option<OutputField>)
        ensures
            match r {
                Some(f) => spec_field_of(input@) == Some(f@),
                None => spec_field_of(input@) is None,
            },
    {
        if str_eq(input, "ecu") {
            Some(OutputField::Ecu)
        } else if str_eq(input, "app") {
            Some(OutputField::App)
        } else if str_eq(input, "ctx") {
            Some(OutputField::Ctx)
        } else if str_eq(input, "time") {
            Some(OutputField::Time)
        } else if str_eq(input, "timestamp") {
            Some(OutputField::Timestamp)
        } else if str_eq(input, "payload") {
            Some(OutputField::Payload)
        } else {
            let n = input.unicode_len();
            if n >= 2 && input.get_char(0) == '<' && input.get_char(n - 1) == '>' {
                let name = input.substring_char(1, n - 1);
                Some(OutputField::Capture(name.to_owned()))
            } else {
                None
            }
        }
    }
}

/// A file sink with its delimiter.
#[derive(Debug)]
pub struct Csv {
    pub delimiter: char,
    pub file_path: String,
}

/// The standard-output sink with its delimiter.
#[derive(Debug)]
pub struct Stdout {
    pub delimiter: char,
}

/// Where output lines go.
#[derive(Debug)]
pub enum OutputType {
    Csv(Csv),
    Stdout(Stdout),
}

/// The sink's delimiter character.
pub open spec fn delim_of(o: &Output) -> char {
    match o.out_type {
        OutputType::Stdout(s) => s.delimiter,
        OutputType::Csv(c) => c.delimiter,
    }
}

/// An output descriptor: a sink and the ordered field list.
#[derive(Debug)]
pub struct Output {
    pub out_type: OutputType,
    pub fields: Vec<OutputField>,
}

/// Whether every capture field references a declared capture name.
pub open spec fn capture_fields_ok(fields: Seq<FieldModel>, names: Seq<Seq<char>>) -> bool {
    forall|i: int|
        0 <= i < fields.len() ==> ((#[trigger] fields[i]) matches FieldModel::Capture(nm)
            ==> names.contains(nm))
}

/// The capture names a filter block's patterns declare.
pub open spec fn declared_names(patterns: &Option<Vec<String>>) -> Seq<Seq<char>> {
    match patterns {
        Some(ps) => names_of_all(ps.deep_view()),
        None => Seq::empty(),
    }
}

/// Whether the name list holds the given name.
fn contains_name(names: &Vec<String>, nm: &String) -> (r: bool)
    ensures
        r == names.deep_view().contains(nm@),
{
    let mut i: usize = 0;
    while i < names.len()
        invariant
            i <= names@.len(),
            forall|k: int| 0 <= k < i ==> names.deep_view()[k] != nm@,
        decreases names@.len() - i,
    {
        if str_eq(names[i].as_str(), nm.as_str()) {
            proof {
                assert(names.deep_view()[i as int] == nm@);
            }
            return true;
        }
        i = i + 1;
    }
    proof {
        assert(!names.deep_view().contains(nm@)) by {
            if names.deep_view().contains(nm@) {
                let k = choose|k: int|
                    0 <= k < names.deep_view().len() && names.deep_view()[k] == nm@;
                assert(false);
            }
        };
    }
    false
}

/// The components of `s` between occurrences of `d`, scanning from
/// `start` with the cursor at `cur`.
pub open spec fn split_from(s: Seq<char>, d: char, start: int, cur: int) -> Seq<Seq<char>>
    decreases s.len() - cur,
{
    if !(0 <= start && start <= cur && cur <= s.len()) {
        Seq::empty()
    } else if cur == s.len() {
        seq![s.subrange(start, cur)]
    } else if s[cur] == d {
        seq![s.subrange(start, cur)] + split_from(s, d, cur + 1, cur + 1)
    } else {
        split_from(s, d, start, cur + 1)
    }
}

/// The components of `s` separated by `d`; separators at the ends yield
/// empty components.
pub open spec fn split_on(s: Seq<char>, d: char) -> Seq<Seq<char>> {
    split_from(s, d, 0, 0)
}

/// Splits a string on a delimiter character.
fn split_string(s: &str, d: char) -> (r: Vec<String>)
    ensures
        r.deep_view() == split_on(s@, d),
{
    let n = s.unicode_len();
    let mut acc: Vec<String> = Vec::new();
    let mut start: usize = 0;
    let mut cur: usize = 0;
    while cur < n
        invariant
            n == s@.len(),
            start <= cur <= n,
            acc.deep_view() + split_from(s@, d, start as int, cur as int) == split_on(s@, d),
        decreases n - cur,
    {
        let c = s.get_char(cur);
        if c == d {
            let part = s.substring_char(start, cur).to_owned();
            let ghost before = acc.deep_view();
            acc.push(part);
            proof {
                assert(split_from(s@, d, start as int, cur as int) == seq![
                    s@.subrange(start as int, cur as int),
                ] + split_from(s@, d, cur + 1, cur + 1));
                assert(acc.deep_view() =~= before.push(s@.subrange(start as int, cur as int)));
                assert(acc.deep_view() + split_from(s@, d, cur + 1, cur + 1) =~= before
                    + split_from(s@, d, start as int, cur as int));
            }
            start = cur + 1;
            cur = cur + 1;
        } else {
            proof {
                assert(split_from(s@, d, start as int, cur as int) == split_from(
                    s@,
                    d,
                    start as int,
                    cur + 1,
                ));
            }
            cur = cur + 1;
        }
    }
    let part = s.substring_char(start, n).to_owned();
    let ghost before = acc.deep_view();
    acc.push(part);
    proof {
        assert(split_from(s@, d, start as int, n as int) == seq![
            s@.subrange(start as int, n as int),
        ]);
        assert(acc.deep_view() =~= before.push(s@.subrange(start as int, n as int)));
        assert(acc.deep_view() =~= before + split_from(s@, d, start as int, n as int));
    }
    acc
}

/// The fields named by the recognized components, in order; components
/// naming no field are dropped.
pub open spec fn fields_from_parts(parts: Seq<Seq<char>>) -> Seq<FieldModel>
    decreases parts.len(),
{
    if parts.len() == 0 {
        Seq::empty()
    } else {
        match spec_field_of(parts[0]) {
            Some(f) => seq![f] + fields_from_parts(parts.drop_first()),
            None => fields_from_parts(parts.drop_first()),
        }
    }
}

/// Parses the format components into output fields, dropping unrecognized
/// names.
fn parse_fields(parts: &Vec<String>) -> (r: Vec<OutputField>)
    ensures
        r.deep_view() == fields_from_parts(parts.deep_view()),
{
    let ghost pd = parts.deep_view();
    let mut acc: Vec<OutputField> = Vec::new();
    let mut i: usize = 0;
    proof {
        assert(pd.skip(0) =~= pd);
    }
    while i < parts.len()
        invariant
            pd == parts.deep_view(),
            i <= pd.len(),
            acc.deep_view() + fields_from_parts(pd.skip(i as int)) == fields_from_parts(pd),
        decreases pd.len() - i,
    {
        proof {
            assert(pd.skip(i as int).drop_first() =~= pd.skip(i + 1));
            assert(pd.skip(i as int)[0] == pd[i as int]);
        }
        match OutputField::from(parts[i].as_str()) {
            Some(f) => {
                let ghost before = acc.deep_view();
                let ghost fv = f@;
                acc.push(f);
                proof {
                    assert(acc.deep_view() =~= before.push(fv));
                    assert(acc.deep_view() + fields_from_parts(pd.skip(i + 1)) =~= before
                        + fields_from_parts(pd.skip(i as int)));
                }
            },
            None => {},
        }
        i = i + 1;
    }
    proof {
        assert(pd.skip(pd.len() as int) =~= Seq::<Seq<char>>::empty());
        assert(acc.deep_view() + Seq::<FieldModel>::empty() =~= acc.deep_view());
    }
    acc
}

impl Output {
    pub fn output_type(&self) -> (r: &OutputType)
        ensures
            r == self.out_type,
    {
        &self.out_type
    }

    pub fn fields(&self) -> (r: &Vec<OutputField>)
        ensures
            r == self.fields,
    {
        &self.fields
    }

    /// Rejects the field list when a capture field references a name not
    /// declared in any configured pattern.
    fn validate_captures(filter: &crate::config::Filter, fields: &Vec<OutputField>) -> (r: Result<
        (),
        crate::dlt::DltError,
    >)
        ensures
            r is Ok <==> capture_fields_ok(fields.deep_view(), declared_names(&filter.patterns)),
            r matches Err(e) ==> e == crate::dlt::DltError::ConfigError,
    {
        let capture_names: Option<Vec<String>> = match filter.patterns() {
            Some(ps) => crate::dlt::filter::Pattern::capture_names(ps),
            None => None,
        };
        let ghost declared = declared_names(&filter.patterns);
        proof {
            match &capture_names {
                Some(v) => {
                    assert(v.deep_view() == declared);
                },
                None => {
                    assert(declared.len() == 0);
                },
            }
        }
        let mut i: usize = 0;
        while i < fields.len()
            invariant
                i <= fields@.len(),
                declared == declared_names(&filter.patterns),
                (capture_names matches Some(v) ==> v.deep_view() == declared),
                (capture_names is None ==> declared.len() == 0),
                forall|k: int|
                    0 <= k < i ==> ((#[trigger] fields.deep_view()[k]) matches FieldModel::Capture(
                        nm,
                    ) ==> declared.contains(nm)),
            decreases fields@.len() - i,
        {
            match &fields[i] {
                OutputField::Capture(name) => {
                    proof {
                        assert(fields.deep_view()[i as int] == FieldModel::Capture(name@));
                    }
                    match &capture_names {
                        Some(ns) => {
                            if !contains_name(ns, name) {
                                return Err(crate::dlt::DltError::ConfigError);
                            }
                        },
                        None => {
                            proof {
                                assert(!declared.contains(name@));
                            }
                            return Err(crate::dlt::DltError::ConfigError);
                        },
                    }
                },
                _ => {},
            }
            i = i + 1;
        }
        Ok(())
    }

    /// Builds the output descriptor a filter block configures: the
    /// enabled standard-output sink with its parsed field list, after
    /// capture-name validation.
    pub fn from_filter(filter: &crate::config::Filter) -> (r: Result<
        Option<Output>,
        crate::dlt::DltError,
    >)
        ensures
            ({
                match &filter.output {
                    Some(out) => match &out.stdout {
                        Some(st) => if st.enabled {
                            let fm = fields_from_parts(split_on(st.format@, st.delimiter));
                            let names = declared_names(&filter.patterns);
                            match r {
                                Ok(o) => o matches Some(oo) && capture_fields_ok(fm, names)
                                    && oo.fields.deep_view() == fm && (oo.out_type matches
                                OutputType::Stdout(sd) && sd.delimiter == st.delimiter),
                                Err(e) => e == crate::dlt::DltError::ConfigError
                                    && !capture_fields_ok(fm, names),
                            }
                        } else {
                            r matches Ok(None)
                        },
                        None => r matches Ok(None),
                    },
                    None => r matches Ok(None),
                }
            }),
    {
        match filter.output() {
            Some(output) => {
                match output.stdout() {
                    Some(stdout) => {
                        if stdout.is_enabled() {
                            let parts = split_string(stdout.format_string().as_str(),
                                stdout.delimiter());
                            let fields = parse_fields(&parts);
                            match Output::validate_captures(filter, &fields) {
                                Ok(_) => Ok(
                                    Some(
                                        Output {
                                            out_type: OutputType::Stdout(
                                                Stdout { delimiter: stdout.delimiter() },
                                            ),
                                            fields,
                                        },
                                    ),
                                ),
                                Err(err) => Err(err),
                            }
                        } else {
                            Ok(None)
                        }
                    },
                    None => Ok(None),
                }
            },
            None => Ok(None),
        }
    }
}

/// The string-typed payload fragments, in argument order.
pub open spec fn payload_strings(vals: Seq<ValueModel>) -> Seq<Seq<char>>
    decreases vals.len(),
{
    if vals.len() == 0 {
        Seq::empty()
    } else {
        match vals[0] {
            ValueModel::Str(t) => seq![t] + payload_strings(vals.drop_first()),
            _ => payload_strings(vals.drop_first()),
        }
    }
}

pub proof fn lemma_payload_strings_push(vals: Seq<ValueModel>, v: ValueModel)
    ensures
        payload_strings(vals.push(v)) == payload_strings(vals) + (match v {
            ValueModel::Str(t) => seq![t],
            _ => Seq::<Seq<char>>::empty(),
        }),
    decreases vals.len(),
{
    if vals.len() == 0 {
        assert(vals.push(v).drop_first() =~= Seq::<ValueModel>::empty());
        assert(vals.push(v)[0] == v);
        assert(payload_strings(Seq::<ValueModel>::empty()) =~= Seq::<Seq<char>>::empty());
        match v {
            ValueModel::Str(t) => {
                assert(payload_strings(vals.push(v)) =~= seq![t]);
                assert(payload_strings(vals) + seq![t] =~= seq![t]);
            },
            _ => {
                assert(payload_strings(vals.push(v)) =~= Seq::<Seq<char>>::empty());
                assert(payload_strings(vals) + Seq::<Seq<char>>::empty() =~= Seq::<
                    Seq<char>,
                >::empty());
            },
        }
    } else {
        assert(vals.push(v).drop_first() =~= vals.drop_first().push(v));
        assert(vals.push(v)[0] == vals[0]);
        lemma_payload_strings_push(vals.drop_first(), v);
        match vals[0] {
            ValueModel::Str(t0) => {
                assert(seq![t0] + (payload_strings(vals.drop_first()) + (match v {
                    ValueModel::Str(t) => seq![t],
                    _ => Seq::<Seq<char>>::empty(),
                })) =~= (seq![t0] + payload_strings(vals.drop_first())) + (match v {
                    ValueModel::Str(t) => seq![t],
                    _ => Seq::<Seq<char>>::empty(),
                }));
            },
            _ => {},
        }
    }
}

/// The value of the first pair carrying the given group name.
pub open spec fn lookup_cap(pairs: Seq<(Seq<char>, Seq<char>)>, nm: Seq<char>) -> Option<Seq<char>>
    decreases pairs.len(),
{
    if pairs.len() == 0 {
        None
    } else if pairs[0].0 == nm {
        Some(pairs[0].1)
    } else {
        lookup_cap(pairs.drop_first(), nm)
    }
}

/// The values the named group captured, one per bundle that holds the
/// name, in bundle order.
pub open spec fn cap_values(
    bundles: Seq<Seq<(Seq<char>, Seq<char>)>>,
    nm: Seq<char>,
) -> Seq<Seq<char>>
    decreases bundles.len(),
{
    if bundles.len() == 0 {
        Seq::empty()
    } else {
        match lookup_cap(bundles[0], nm) {
            Some(v) => seq![v] + cap_values(bundles.drop_first(), nm),
            None => cap_values(bundles.drop_first(), nm),
        }
    }
}

pub proof fn lemma_cap_values_push(
    bundles: Seq<Seq<(Seq<char>, Seq<char>)>>,
    b: Seq<(Seq<char>, Seq<char>)>,
    nm: Seq<char>,
)
    ensures
        cap_values(bundles.push(b), nm) == cap_values(bundles, nm) + (match lookup_cap(b, nm) {
            Some(v) => seq![v],
            None => Seq::<Seq<char>>::empty(),
        }),
    decreases bundles.len(),
{
    if bundles.len() == 0 {
        assert(bundles.push(b).drop_first() =~= Seq::<Seq<(Seq<char>, Seq<char>)>>::empty());
        assert(bundles.push(b)[0] == b);
        assert(cap_values(Seq::<Seq<(Seq<char>, Seq<char>)>>::empty(), nm) =~= Seq::<
            Seq<char>,
        >::empty());
        match lookup_cap(b, nm) {
            Some(v) => {
                assert(cap_values(bundles.push(b), nm) =~= seq![v]);
                assert(cap_values(bundles, nm) + seq![v] =~= seq![v]);
            },
            None => {
                assert(cap_values(bundles.push(b), nm) =~= Seq::<Seq<char>>::empty());
                assert(cap_values(bundles, nm) + Seq::<Seq<char>>::empty() =~= Seq::<
                    Seq<char>,
                >::empty());
            },
        }
    } else {
        assert(bundles.push(b).drop_first() =~= bundles.drop_first().push(b));
        assert(bundles.push(b)[0] == bundles[0]);
        lemma_cap_values_push(bundles.drop_first(), b, nm);
        match lookup_cap(bundles[0], nm) {
            Some(v0) => {
                assert(seq![v0] + (cap_values(bundles.drop_first(), nm) + (match lookup_cap(
                    b,
                    nm,
                ) {
                    Some(v) => seq![v],
                    None => Seq::<Seq<char>>::empty(),
                })) =~= (seq![v0] + cap_values(bundles.drop_first(), nm)) + (match lookup_cap(
                    b,
                    nm,
                ) {
                    Some(v) => seq![v],
                    None => Seq::<Seq<char>>::empty(),
                }));
            },
            None => {},
        }
    }
}

/// How one output field renders for a message: the identifier fields fall
/// back to `none` when absent, the time fields render in decimal, and the
/// payload and capture fields join their fragments with the delimiter.
pub open spec fn render_field_model(
    f: FieldModel,
    m: MessageModel,
    bundles: Seq<Seq<(Seq<char>, Seq<char>)>>,
    d: char,
) -> Seq<char> {
    match f {
        FieldModel::Ecu => match m.std_ecu {
            Some(e) => e,
            None => m.storage_ecu,
        },
        FieldModel::App => match m.ext {
            Some(x) => x.app,
            None => "none"@,
        },
        FieldModel::Ctx => match m.ext {
            Some(x) => x.ctx,
            None => "none"@,
        },
        FieldModel::Time => decoded_digits(m.sec as nat) + seq!['.'] + decoded_digits(
            m.usec as nat,
        ),
        FieldModel::Timestamp => match m.timestamp {
            Some(t) => decoded_digits(t as nat),
            None => "none"@,
        },
        FieldModel::Payload => join_with(payload_strings(m.payload), d),
        FieldModel::Capture(nm) => join_with(cap_values(bundles, nm), d),
    }
}

/// The whole output line: the field renderings joined with single
/// delimiters.
pub open spec fn render_line(
    fields: Seq<FieldModel>,
    m: MessageModel,
    bundles: Seq<Seq<(Seq<char>, Seq<char>)>>,
    d: char,
) -> Seq<char> {
    join_with(Seq::new(fields.len(), |i: int| render_field_model(fields[i], m, bundles, d)), d)
}

/// The output line holds exactly one delimiter per boundary between field
/// renderings, beyond those the field renderings emit themselves.
pub proof fn lemma_line_delimiter_count(
    fields: Seq<FieldModel>,
    m: MessageModel,
    bundles: Seq<Seq<(Seq<char>, Seq<char>)>>,
    d: char,
)
    requires
        fields.len() > 0,
    ensures
        count_char(render_line(fields, m, bundles, d), d) == fields.len() - 1 + count_char_parts(
            Seq::new(fields.len(), |i: int| render_field_model(fields[i], m, bundles, d)),
            d,
        ),
{
    lemma_join_delimiter_count(
        Seq::new(fields.len(), |i: int| render_field_model(fields[i], m, bundles, d)),
        d,
    );
}

/// Looks a group name up in one capture bundle.
fn lookup_value(pairs: &Vec<Capture>, nm: &String) -> (r: Option<String>)
    ensures
        match r {
            Some(v) => lookup_cap(pairs.deep_view(), nm@) == Some(v@),
            None => lookup_cap(pairs.deep_view(), nm@) is None,
        },
{
    let ghost pd = pairs.deep_view();
    let mut i: usize = 0;
    proof {
        assert(pd.skip(0) =~= pd);
    }
    while i < pairs.len()
        invariant
            pd == pairs.deep_view(),
            i <= pd.len(),
            lookup_cap(pd.skip(i as int), nm@) == lookup_cap(pd, nm@),
        decreases pd.len() - i,
    {
        proof {
            assert(pd.skip(i as int).drop_first() =~= pd.skip(i + 1));
            assert(pd.skip(i as int)[0] == pd[i as int]);
        }
        if str_eq(pairs[i].name.as_str(), nm.as_str()) {
            proof {
                assert(pd[i as int].0 == nm@);
            }
            return Some(pairs[i].value.clone());
        }
        proof {
            assert(pd[i as int].0 != nm@);
        }
        i = i + 1;
    }
    proof {
        assert(pd.skip(pd.len() as int) =~= Seq::<(Seq<char>, Seq<char>)>::empty());
    }
    None
}

/// Renders one output field for a message.
fn render_field(field: &OutputField, msg: &Message, captures: &Vec<Vec<Capture>>, d: char) -> (r:
    String)
    ensures
        r@ == render_field_model(field@, msg_model(msg), captures.deep_view(), d),
{
    match field {
        OutputField::Ecu => {
            match &msg.standard_header.ecu_id {
                Some(v) => v.clone(),
                None => msg.storage_header.ecu.clone(),
            }
        },
        OutputField::App => {
            match &msg.extended_header {
                Some(x) => x.app_id.clone(),
                None => "none".to_owned(),
            }
        },
        OutputField::Ctx => {
            match &msg.extended_header {
                Some(x) => x.context_id.clone(),
                None => "none".to_owned(),
            }
        },
        OutputField::Time => {
            let mut t = u32_to_string(msg.storage_header.timestamp_sec);
            push_char(&mut t, '.');
            let u = u32_to_string(msg.storage_header.timestamp_usec);
            t.append(u.as_str());
            proof {
                assert(t@ =~= decoded_digits(msg.storage_header.timestamp_sec as nat)
                    + seq!['.'] + decoded_digits(msg.storage_header.timestamp_usec as nat));
            }
            t
        },
        OutputField::Timestamp => {
            match msg.standard_header.timestamp {
                Some(ts) => u32_to_string(ts),
                None => "none".to_owned(),
            }
        },
        OutputField::Payload => {
            let ghost vals = msg_model(msg).payload;
            let mut out = String::new();
            let ghost mut parts: Seq<Seq<char>> = Seq::empty();
            let mut first = true;
            let mut i: usize = 0;
            proof {
                assert(vals.take(0) =~= Seq::<ValueModel>::empty());
            }
            while i < msg.payload.len()
                invariant
                    vals == msg.payload.deep_view(),
                    i <= msg.payload@.len(),
                    parts == payload_strings(vals.take(i as int)),
                    out@ == join_with(parts, d),
                    first <==> parts.len() == 0,
                decreases msg.payload@.len() - i,
            {
                proof {
                    assert(vals.take(i + 1) =~= vals.take(i as int).push(vals[i as int]));
                    lemma_payload_strings_push(vals.take(i as int), vals[i as int]);
                }
                match &msg.payload[i] {
                    Value::Str(t) => {
                        proof {
                            assert(vals[i as int] == ValueModel::Str(t@));
                            lemma_join_push(parts, t@, d);
                        }
                        if !first {
                            push_char(&mut out, d);
                        }
                        out.append(t.as_str());
                        proof {
                            parts = parts.push(t@);
                            assert(payload_strings(vals.take(i + 1)) =~= parts);
                            assert(out@ =~= join_with(parts, d));
                        }
                        first = false;
                    },
                    _ => {
                        proof {
                            assert(payload_strings(vals.take(i + 1)) =~= parts);
                        }
                    },
                }
                i = i + 1;
            }
            proof {
                assert(vals.take(msg.payload@.len() as int) =~= vals);
            }
            out
        },
        OutputField::Capture(nm) => {
            let ghost bd = captures.deep_view();
            let mut out = String::new();
            let ghost mut parts: Seq<Seq<char>> = Seq::empty();
            let mut first = true;
            let mut i: usize = 0;
            proof {
                assert(bd.take(0) =~= Seq::<Seq<(Seq<char>, Seq<char>)>>::empty());
            }
            while i < captures.len()
                invariant
                    bd == captures.deep_view(),
                    i <= captures@.len(),
                    parts == cap_values(bd.take(i as int), nm@),
                    out@ == join_with(parts, d),
                    first <==> parts.len() == 0,
                decreases captures@.len() - i,
            {
                proof {
                    assert(bd.take(i + 1) =~= bd.take(i as int).push(bd[i as int]));
                    lemma_cap_values_push(bd.take(i as int), bd[i as int], nm@);
                }
                match lookup_value(&captures[i], nm) {
                    Some(v) => {
                        proof {
                            lemma_join_push(parts, v@, d);
                        }
                        if !first {
                            push_char(&mut out, d);
                        }
                        out.append(v.as_str());
                        proof {
                            parts = parts.push(v@);
                            assert(cap_values(bd.take(i + 1), nm@) =~= parts);
                            assert(out@ =~= join_with(parts, d));
                        }
                        first = false;
                    },
                    None => {
                        proof {
                            assert(cap_values(bd.take(i + 1), nm@) =~= parts);
                        }
                    },
                }
                i = i + 1;
            }
            proof {
                assert(bd.take(captures@.len() as int) =~= bd);
            }
            out
        },
    }
}

/// Renders a whole output line for a message: the field renderings joined
/// with single delimiters.
pub fn format_line(fields: &Vec<OutputField>, msg: &Message, captures: &Vec<Vec<Capture>>, d: char)
    -> (r: String)
    ensures
        r@ == render_line(fields.deep_view(), msg_model(msg), captures.deep_view(), d),
{
    let ghost fm = fields.deep_view();
    let ghost renders = Seq::new(
        fm.len(),
        |i: int| render_field_model(fm[i], msg_model(msg), captures.deep_view(), d),
    );
    let mut out = String::new();
    let mut i: usize = 0;
    proof {
        assert(renders.take(0) =~= Seq::<Seq<char>>::empty());
    }
    while i < fields.len()
        invariant
            fm == fields.deep_view(),
            renders == Seq::new(
                fm.len(),
                |j: int| render_field_model(fm[j], msg_model(msg), captures.deep_view(), d),
            ),
            i <= fm.len(),
            out@ == join_with(renders.take(i as int), d),
        decreases fm.len() - i,
    {
        let piece = render_field(&fields[i], msg, captures, d);
        proof {
            assert(piece@ == renders[i as int]);
            assert(renders.take(i + 1) =~= renders.take(i as int).push(renders[i as int]));
            lemma_join_push(renders.take(i as int), renders[i as int], d);
        }
        if i > 0 {
            push_char(&mut out, d);
        }
        out.append(piece.as_str());
        proof {
            assert(out@ =~= join_with(renders.take(i + 1), d));
        }
        i = i + 1;
    }
    proof {
        assert(renders.take(fm.len() as int) =~= renders);
    }
    out
}

} // verus!
