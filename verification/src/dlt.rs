//! Record framing: the message iterator over a DLT byte buffer.

pub mod cursor;
pub mod filter;
pub mod headers;
pub mod payload;

use vstd::prelude::*;

verus! {

/// The error kinds a DLT decoding pipeline can surface.
#[derive(Clone, Copy, PartialEq, Eq, Structural, Debug)]
pub enum DltError {
    /// The buffer ended in the middle of a record.
    Truncated,
    /// The storage header's magic pattern did not match.
    BadMagic,
    /// A payload argument's type is not decodable.
    UnsupportedType,
    /// Identifier or string bytes were not valid UTF-8.
    InvalidUtf8,
    /// A configuration value was rejected before any decoding began.
    ConfigError,
    /// An input or output operation failed.
    Io,
}

/// A borrowed byte buffer holding a stream of DLT records, together with
/// the offset at which iteration starts.
pub struct TraceData<'d> {
    pub data: &'d [u8],
    pub index: usize,
}

impl<'d> TraceData<'d> {
    pub fn new(data: &'d [u8], index: usize) -> (t: TraceData<'d>)
        ensures
            t.data@ == data@,
            t.index == index,
    {
        TraceData { data, index }
    }

    pub fn iter(&self) -> (it: TraceDataIter<'d>)
        ensures
            it.data@ == self.data@,
            it.index == self.index,
    {
        TraceDataIter { data: self.data, index: self.index }
    }
}

/// A one-pass reader over the records of a byte buffer.
pub struct TraceDataIter<'d> {
    pub data: &'d [u8],
    pub index: usize,
}

/// One fully decoded record.
pub struct Message {
    pub storage_header: headers::StorageHeader,
    pub standard_header: headers::StandardHeader,
    pub extended_header: Option<headers::ExtendedHeader>,
    pub payload: Vec<payload::Value>,
}

/// The record's total length, read from the standard header at `s`.
pub open spec fn msg_len_of(d: Seq<u8>, s: int) -> int {
    cursor::be_nat(d.subrange(s + 2, s + 4)) as int
}

/// Whether the record starting at `p0` frames correctly: the storage
/// header fits and carries the magic pattern, the standard header fits,
/// and the declared message length covers the headers and stays inside
/// the buffer.
pub open spec fn frame_ok(d: Seq<u8>, p0: int) -> bool {
    let s = p0 + 16;
    &&& p0 + 16 <= d.len()
    &&& d.subrange(p0, p0 + 4) == headers::storage_pattern()
    &&& s + headers::std_header_len(d[s]) <= d.len()
    &&& s + msg_len_of(d, s) <= d.len()
    &&& msg_len_of(d, s) >= headers::std_header_len(d[s]) + (if headers::htyp_has_ext(d[s]) {
        10int
    } else {
        0int
    })
}

/// Whether every identifier field of the record starting at `p0` decodes
/// as UTF-8 once its trailing NUL bytes are stripped.
pub open spec fn idents_ok(d: Seq<u8>, p0: int) -> bool {
    let s = p0 + 16;
    let e0 = s + headers::std_header_len(d[s]);
    &&& cursor::ident_ok(d.subrange(p0 + 12, p0 + 16))
    &&& (headers::htyp_has_ecu(d[s]) ==> cursor::ident_ok(d.subrange(s + 4, s + 8)))
    &&& (headers::htyp_has_ext(d[s]) ==> cursor::ident_ok(d.subrange(e0 + 2, e0 + 6))
        && cursor::ident_ok(d.subrange(e0 + 6, e0 + 10)))
}

/// The byte order the record's payload is decoded with.
pub open spec fn conv_of(h: u8) -> payload::ByteConverter {
    if headers::htyp_is_be(h) {
        payload::ByteConverter::FromBigEndian
    } else {
        payload::ByteConverter::FromLittleEndian
    }
}

/// The payload values of the record whose standard header starts at `s`.
pub open spec fn message_payload_model(d: Seq<u8>, s: int) -> Seq<payload::ValueModel> {
    let h = d[s];
    let hl = headers::std_header_len(h);
    let ml = msg_len_of(d, s);
    let conv = conv_of(h);
    if headers::htyp_has_ext(h) {
        let e0 = s + hl;
        let pstart = e0 + 10;
        if headers::msin_verbose(d[e0]) {
            payload::parse_args(d, pstart, s + ml, conv, d[e0 + 1] as nat)
        } else {
            seq![payload::parse_non_verbose(d, pstart, s + ml, conv)]
        }
    } else {
        seq![payload::parse_non_verbose(d, s + hl, s + ml, conv)]
    }
}

/// The extended header of a record, as mathematical values.
#[verifier::ext_equal]
pub struct ExtModel {
    pub msg_info: u8,
    pub num_args: int,
    pub app: Seq<char>,
    pub ctx: Seq<char>,
}

/// A fully decoded record, as mathematical values.
#[verifier::ext_equal]
pub struct MessageModel {
    pub sec: u32,
    pub usec: u32,
    pub storage_ecu: Seq<char>,
    pub htyp: u8,
    pub counter: int,
    pub msg_length: int,
    pub std_len: int,
    pub std_ecu: Option<Seq<char>>,
    pub session: Option<u32>,
    pub timestamp: Option<u32>,
    pub ext: Option<ExtModel>,
    pub payload: Seq<payload::ValueModel>,
}

/// The mathematical content of a decoded message value.
pub open spec fn msg_model(m: &Message) -> MessageModel {
    MessageModel {
        sec: m.storage_header.timestamp_sec,
        usec: m.storage_header.timestamp_usec,
        storage_ecu: m.storage_header.ecu@,
        htyp: m.standard_header.htyp,
        counter: m.standard_header.counter as int,
        msg_length: m.standard_header.msg_length as int,
        std_len: m.standard_header.length as int,
        std_ecu: match m.standard_header.ecu_id {
            Some(s) => Some(s@),
            None => None,
        },
        session: m.standard_header.session_id,
        timestamp: m.standard_header.timestamp,
        ext: match m.extended_header {
            Some(x) => Some(
                ExtModel {
                    msg_info: x.msg_info,
                    num_args: x.num_of_args as int,
                    app: x.app_id@,
                    ctx: x.context_id@,
                },
            ),
            None => None,
        },
        payload: m.payload.deep_view(),
    }
}

/// The record decoded from the bytes at `p0`, meaningful when
/// `record_error(d, p0)` is `None`.
pub open spec fn model_of(d: Seq<u8>, p0: int) -> MessageModel {
    let s = p0 + 16;
    let h = d[s];
    let hl = headers::std_header_len(h);
    let ecu_end = s + 4 + (if headers::htyp_has_ecu(h) {
        4int
    } else {
        0int
    });
    let ses_end = ecu_end + (if headers::htyp_has_session(h) {
        4int
    } else {
        0int
    });
    let e0 = s + hl;
    MessageModel {
        sec: cursor::be_nat(d.subrange(p0 + 4, p0 + 8)) as u32,
        usec: cursor::be_nat(d.subrange(p0 + 8, p0 + 12)) as u32,
        storage_ecu: cursor::decoded_ident(d.subrange(p0 + 12, p0 + 16)),
        htyp: h,
        counter: d[s + 1] as int,
        msg_length: msg_len_of(d, s),
        std_len: hl,
        std_ecu: if headers::htyp_has_ecu(h) {
            Some(cursor::decoded_ident(d.subrange(s + 4, s + 8)))
        } else {
            None
        },
        session: if headers::htyp_has_session(h) {
            Some(cursor::be_nat(d.subrange(ecu_end, ecu_end + 4)) as u32)
        } else {
            None
        },
        timestamp: if headers::htyp_has_timestamp(h) {
            Some(cursor::be_nat(d.subrange(ses_end, ses_end + 4)) as u32)
        } else {
            None
        },
        ext: if headers::htyp_has_ext(h) {
            Some(
                ExtModel {
                    msg_info: d[e0],
                    num_args: if headers::msin_verbose(d[e0]) {
                        d[e0 + 1] as int
                    } else {
                        0int
                    },
                    app: cursor::decoded_ident(d.subrange(e0 + 2, e0 + 6)),
                    ctx: cursor::decoded_ident(d.subrange(e0 + 6, e0 + 10)),
                },
            )
        } else {
            None
        },
        payload: message_payload_model(d, s),
    }
}

/// The error, if any, that decoding the record at `p0` surfaces, in the
/// order the decoder meets the conditions.
pub open spec fn record_error(d: Seq<u8>, p0: int) -> Option<DltError> {
    let s = p0 + 16;
    if p0 + 16 > d.len() {
        Some(DltError::Truncated)
    } else if d.subrange(p0, p0 + 4) != headers::storage_pattern() {
        Some(DltError::BadMagic)
    } else if !cursor::ident_ok(d.subrange(p0 + 12, p0 + 16)) {
        Some(DltError::InvalidUtf8)
    } else if s + headers::std_header_len(d[s]) > d.len() {
        Some(DltError::Truncated)
    } else if headers::htyp_has_ecu(d[s]) && !cursor::ident_ok(d.subrange(s + 4, s + 8)) {
        Some(DltError::InvalidUtf8)
    } else if msg_len_of(d, s) > d.len() - s || msg_len_of(d, s) < headers::std_header_len(d[s]) + (
    if headers::htyp_has_ext(d[s]) {
        10int
    } else {
        0int
    }) {
        Some(DltError::Truncated)
    } else if headers::htyp_has_ext(d[s]) && !(cursor::ident_ok(
        d.subrange(s + headers::std_header_len(d[s]) + 2, s + headers::std_header_len(d[s]) + 6),
    ) && cursor::ident_ok(
        d.subrange(s + headers::std_header_len(d[s]) + 6, s + headers::std_header_len(d[s]) + 10),
    )) {
        Some(DltError::InvalidUtf8)
    } else {
        None
    }
}

/// Where the iterator stands after handling the record at `p0`: past the
/// record when its length is known and in bounds, at the end of the
/// buffer otherwise.
pub open spec fn resume_at(d: Seq<u8>, p0: int) -> int {
    let s = p0 + 16;
    if p0 + 16 > d.len() {
        d.len() as int
    } else if d.subrange(p0, p0 + 4) != headers::storage_pattern() {
        d.len() as int
    } else if !cursor::ident_ok(d.subrange(p0 + 12, p0 + 16)) {
        d.len() as int
    } else if s + headers::std_header_len(d[s]) > d.len() {
        d.len() as int
    } else if headers::htyp_has_ecu(d[s]) && !cursor::ident_ok(d.subrange(s + 4, s + 8)) {
        if msg_len_of(d, s) > d.len() - s {
            d.len() as int
        } else {
            s + msg_len_of(d, s)
        }
    } else if msg_len_of(d, s) > d.len() - s || msg_len_of(d, s) < headers::std_header_len(d[s]) + (
    if headers::htyp_has_ext(d[s]) {
        10int
    } else {
        0int
    }) {
        d.len() as int
    } else {
        s + msg_len_of(d, s)
    }
}

impl<'d> TraceDataIter<'d> {
    /// Decodes the record at the current offset, if any bytes remain.
    ///
    /// On success the offset advances to exactly `standard_start +
    /// msg_length`: the start of the standard header plus the total length
    /// the record declares. A record that cannot be framed terminates the
    /// iteration; one whose identifier bytes are not UTF-8 is skipped.
    pub fn next(&mut self) -> (r: Option<Result<Message, DltError>>)
        ensures
            final(self).data@ == old(self).data@,
            ({
                let d = old(self).data@;
                let p0 = old(self).index as int;
                let s = p0 + 16;
                match r {
                    None => p0 >= d.len() && final(self).index == p0,
                    Some(Ok(m)) => {
                        &&& p0 < d.len()
                        &&& frame_ok(d, p0)
                        &&& idents_ok(d, p0)
                        &&& headers::storage_header_matches(d, p0, m.storage_header)
                        &&& headers::std_header_matches(d, s, m.standard_header)
                        &&& (m.extended_header is Some <==> headers::htyp_has_ext(d[s]))
                        &&& (m.extended_header matches Some(x) ==> headers::ext_header_matches(
                            d,
                            s + headers::std_header_len(d[s]),
                            x,
                        ))
                        &&& m.payload.deep_view() == message_payload_model(d, s)
                        &&& record_error(d, p0) is None
                        &&& msg_model(&m) == model_of(d, p0)
                        &&& final(self).index == s + m.standard_header.msg_length
                        &&& final(self).index == s + msg_len_of(d, s)
                        &&& final(self).index == resume_at(d, p0)
                    },
                    Some(Err(e)) => {
                        &&& p0 < d.len()
                        &&& final(self).index > p0
                        &&& final(self).index <= d.len()
                        &&& record_error(d, p0) == Some(e)
                        &&& final(self).index == resume_at(d, p0)
                        &&& (e == DltError::Truncated ==> !frame_ok(d, p0))
                        &&& (e == DltError::BadMagic ==> p0 + 16 <= d.len() && d.subrange(
                            p0,
                            p0 + 4,
                        ) != headers::storage_pattern())
                        &&& (e == DltError::InvalidUtf8 ==> !idents_ok(d, p0))
                    },
                }
            }),
    {
        let len = self.data.len();
        if self.index >= len {
            return None;
        }
        let ghost d = self.data@;
        let ghost p0 = self.index as int;
        let storage_header = match headers::read_storage_header(self) {
            Ok(h) => h,
            Err(e) => {
                self.index = len;
                return Some(Err(e));
            },
        };
        let standard_start = self.index;
        let standard_header = match headers::read_standard_header(self) {
            Ok(h) => h,
            Err(DltError::Truncated) => {
                self.index = len;
                return Some(Err(DltError::Truncated));
            },
            Err(e) => {
                // The length bytes are in bounds even when an identifier
                // is rejected, so the record can still be skipped.
                let mut cur = cursor::Cursor::new(self.data, standard_start + 2);
                let ml = match cur.read_u16(&payload::ByteConverter::FromBigEndian) {
                    Ok(v) => v,
                    Err(_) => {
                        return vstd::pervasive::unreached();
                    },
                };
                if (ml as usize) > len - standard_start {
                    self.index = len;
                } else {
                    self.index = standard_start + (ml as usize);
                }
                return Some(Err(e));
            },
        };
        let msg_length = standard_header.msg_len();
        let hl = standard_header.len();
        let ext_extra: usize = if standard_header.has_extended_header() {
            10
        } else {
            0
        };
        if msg_length > len - standard_start || msg_length < hl + ext_extra {
            self.index = len;
            return Some(Err(DltError::Truncated));
        }
        let seek_to = standard_start + msg_length;
        let is_be = standard_header.is_big_endian();
        let has_ext = standard_header.has_extended_header();
        let mut message = Message {
            storage_header,
            standard_header,
            extended_header: None,
            payload: Vec::new(),
        };
        if has_ext {
            let ext_header = match headers::read_extended_header(self) {
                Ok(h) => h,
                Err(e) => {
                    self.index = seek_to;
                    return Some(Err(e));
                },
            };
            let verbose = ext_header.is_verbose();
            let count = ext_header.number_of_arguments();
            message.extended_header = Some(ext_header);
            let payload_size = msg_length - hl - 10;
            if verbose {
                let pl = payload::Payload::new_verbose(
                    self.data,
                    self.index,
                    payload_size,
                    is_be,
                    count,
                );
                let it = pl.iter();
                message.payload = it.collect_values();
            } else {
                let pl = payload::Payload::new_non_verbose(
                    self.data,
                    self.index,
                    payload_size,
                    is_be,
                );
                let value = pl.read_non_verbose();
                message.payload.push(value);
                proof {
                    assert(message.payload.deep_view() =~= seq![value@]);
                }
            }
        } else {
            let payload_size = msg_length - hl;
            let pl = payload::Payload::new_non_verbose(self.data, self.index, payload_size, is_be);
            let value = pl.read_non_verbose();
            message.payload.push(value);
            proof {
                assert(message.payload.deep_view() =~= seq![value@]);
            }
        }
        self.index = seek_to;
        proof {
            assert(msg_model(&message) =~~= model_of(d, p0));
        }
        Some(Ok(message))
    }
}

/// The line the filter and projector produce for one decoded message:
/// `None` when a predicate rejects it, when configured patterns match no
/// string argument, or when no output descriptor is configured.
pub open spec fn line_for(
    m: MessageModel,
    f: &filter::Filter,
    out: &Option<crate::Output>,
) -> Option<Seq<char>> {
    if !(filter::ecu_passes(f, m) && filter::app_passes(f, m) && filter::ctx_passes(f, m)) {
        None
    } else {
        match f.patterns {
            Some(filter::FilterType::Patterns(p)) => {
                let bundles = filter::first_match_bundles(p.spec_sources(), m.payload);
                if bundles.len() == 0 {
                    None
                } else {
                    match out {
                        Some(o) => Some(
                            crate::render_line(o.fields.deep_view(), m, bundles, crate::delim_of(o)),
                        ),
                        None => None,
                    }
                }
            },
            _ => match out {
                Some(o) => Some(
                    crate::render_line(
                        o.fields.deep_view(),
                        m,
                        Seq::empty(),
                        crate::delim_of(o),
                    ),
                ),
                None => None,
            },
        }
    }
}

/// Offers one message to the filter set and, when it survives, renders
/// its output line. Identifier predicates run first, in the order ECU,
/// application, context; the pattern predicate runs last.
pub fn process_message(
    msg: &Message,
    filters: &filter::Filter,
    output: &Option<crate::Output>,
) -> (r: Option<String>)
    ensures
        match r {
            Some(s) => line_for(msg_model(msg), filters, output) == Some(s@),
            None => line_for(msg_model(msg), filters, output) is None,
        },
{
    if !filters.filter_ecu_id(msg) {
        return None;
    }
    if !filters.filter_app_id(msg) {
        return None;
    }
    if !filters.filter_context_id(msg) {
        return None;
    }
    let captures = filters.find_patterns(msg);
    match captures {
        Some(bundles) => {
            if bundles.len() == 0 {
                return None;
            }
            match output {
                Some(out) => {
                    let d = match out.output_type() {
                        crate::OutputType::Stdout(stdout) => stdout.delimiter,
                        crate::OutputType::Csv(csv) => csv.delimiter,
                    };
                    Some(crate::format_line(out.fields(), msg, &bundles, d))
                },
                None => None,
            }
        },
        None => {
            match output {
                Some(out) => {
                    let d = match out.output_type() {
                        crate::OutputType::Stdout(stdout) => stdout.delimiter,
                        crate::OutputType::Csv(csv) => csv.delimiter,
                    };
                    let empty_captures: Vec<Vec<filter::Capture>> = Vec::new();
                    proof {
                        assert(empty_captures.deep_view() =~= Seq::<
                            Seq<(Seq<char>, Seq<char>)>,
                        >::empty());
                    }
                    Some(crate::format_line(out.fields(), msg, &empty_captures, d))
                },
                None => None,
            }
        },
    }
}

/// The output lines the pipeline produces from the records at `pos` on:
/// each well-formed surviving record contributes its rendered line, in
/// file order; malformed records are skipped or end the iteration as
/// `resume_at` says.
pub open spec fn pipeline_lines(
    d: Seq<u8>,
    f: &filter::Filter,
    out: &Option<crate::Output>,
    pos: int,
) -> Seq<Seq<char>>
    decreases d.len() - pos,
{
    if !(0 <= pos) {
        Seq::empty()
    } else if pos >= d.len() {
        Seq::empty()
    } else if record_error(d, pos) is Some {
        pipeline_lines(d, f, out, resume_at(d, pos))
    } else {
        let rest = pipeline_lines(d, f, out, resume_at(d, pos));
        match line_for(model_of(d, pos), f, out) {
            Some(l) => seq![l] + rest,
            None => rest,
        }
    }
}

/// Streams the records of a byte buffer through the filter set and the
/// projector, collecting the output lines in file order.
pub fn run_dlt(data: &[u8], filters: &filter::Filter, output: &Option<crate::Output>) -> (r: Vec<
    String,
>)
    ensures
        r.deep_view() == pipeline_lines(data@, filters, output, 0),
{
    let ghost d = data@;
    let mut lines: Vec<String> = Vec::new();
    let trace = TraceData::new(data, 0);
    let mut it = trace.iter();
    loop
        invariant
            it.data@ == d,
            d == data@,
            it.index <= d.len(),
            lines.deep_view() + pipeline_lines(d, filters, output, it.index as int)
                == pipeline_lines(d, filters, output, 0),
        decreases d.len() - it.index,
    {
        let ghost p0 = it.index as int;
        let ghost before = lines.deep_view();
        match it.next() {
            None => {
                proof {
                    assert(pipeline_lines(d, filters, output, p0) =~= Seq::<Seq<char>>::empty());
                    assert(lines.deep_view() =~= before + pipeline_lines(d, filters, output, p0));
                }
                return lines;
            },
            Some(Ok(msg)) => {
                proof {
                    assert(pipeline_lines(d, filters, output, p0) == (match line_for(
                        model_of(d, p0),
                        filters,
                        output,
                    ) {
                        Some(l) => seq![l] + pipeline_lines(
                            d,
                            filters,
                            output,
                            resume_at(d, p0),
                        ),
                        None => pipeline_lines(d, filters, output, resume_at(d, p0)),
                    }));
                }
                match process_message(&msg, filters, output) {
                    Some(line) => {
                        let ghost lv = line@;
                        lines.push(line);
                        proof {
                            assert(lines.deep_view() =~= before.push(lv));
                            assert(lines.deep_view() + pipeline_lines(
                                d,
                                filters,
                                output,
                                it.index as int,
                            ) =~= before + pipeline_lines(d, filters, output, p0));
                        }
                    },
                    None => {},
                }
            },
            Some(Err(_)) => {
                proof {
                    assert(pipeline_lines(d, filters, output, p0) == pipeline_lines(
                        d,
                        filters,
                        output,
                        resume_at(d, p0),
                    ));
                }
            },
        }
    }
}

/// Running the pipeline twice on the same input with the same filter set
/// and output descriptor produces identical output.
pub proof fn lemma_pipeline_deterministic(
    r1: Seq<Seq<char>>,
    r2: Seq<Seq<char>>,
    d: Seq<u8>,
    f: &filter::Filter,
    out: &Option<crate::Output>,
)
    requires
        r1 == pipeline_lines(d, f, out, 0),
        r2 == pipeline_lines(d, f, out, 0),
    ensures
        r1 == r2,
{
}

} // verus!
