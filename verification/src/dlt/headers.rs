//! Storage, standard and extended header decoding.

use vstd::prelude::*;
use crate::dlt::cursor::{be_nat, decoded_ident, ident_ok, Cursor};
use crate::dlt::payload::ByteConverter;
use crate::dlt::{DltError, TraceDataIter};

verus! {

/// The four magic bytes every storage header must start with.
pub open spec fn storage_pattern() -> Seq<u8> {
    seq![0x44u8, 0x4Cu8, 0x54u8, 0x01u8]
}

/// What a decoded storage header holds, in terms of the record bytes
/// starting at `p`.
pub open spec fn storage_header_matches(d: Seq<u8>, p: int, h: StorageHeader) -> bool {
    &&& h.timestamp_sec == be_nat(d.subrange(p + 4, p + 8))
    &&& h.timestamp_usec == be_nat(d.subrange(p + 8, p + 12))
    &&& ident_ok(d.subrange(p + 12, p + 16))
    &&& h.ecu@ == decoded_ident(d.subrange(p + 12, p + 16))
}

/// The 16-byte prefix of each record in a DLT file.
pub struct StorageHeader {
    pub timestamp_sec: u32,
    pub timestamp_usec: u32,
    pub ecu: String,
}

impl StorageHeader {
    pub fn ecu_id(&self) -> (r: &String)
        ensures
            r@ == self.ecu@,
    {
        &self.ecu
    }
}

// Flag bits of the standard header's HTYP byte.
pub open spec fn htyp_has_ext(h: u8) -> bool {
    h & 0x01 == 0x01
}

pub open spec fn htyp_is_be(h: u8) -> bool {
    h & 0x02 == 0x02
}

pub open spec fn htyp_has_ecu(h: u8) -> bool {
    h & 0x04 == 0x04
}

pub open spec fn htyp_has_session(h: u8) -> bool {
    h & 0x08 == 0x08
}

pub open spec fn htyp_has_timestamp(h: u8) -> bool {
    h & 0x10 == 0x10
}

pub open spec fn htyp_version(h: u8) -> u8 {
    (h & 0xE0) >> 5
}

/// How many bytes the standard header occupies for a given HTYP byte.
pub open spec fn std_header_len(h: u8) -> int {
    4 + (if htyp_has_ecu(h) {
        4int
    } else {
        0int
    }) + (if htyp_has_session(h) {
        4int
    } else {
        0int
    }) + (if htyp_has_timestamp(h) {
        4int
    } else {
        0int
    })
}

/// What a decoded standard header holds, in terms of the bytes starting
/// at `p`.
pub open spec fn std_header_matches(d: Seq<u8>, p: int, h: StandardHeader) -> bool {
    let ecu_end = p + 4 + (if htyp_has_ecu(d[p]) {
        4int
    } else {
        0int
    });
    let ses_end = ecu_end + (if htyp_has_session(d[p]) {
        4int
    } else {
        0int
    });
    &&& h.htyp == d[p]
    &&& h.counter == d[p + 1]
    &&& h.msg_length == be_nat(d.subrange(p + 2, p + 4))
    &&& h.length == std_header_len(d[p])
    &&& (if htyp_has_ecu(d[p]) {
        h.ecu_id matches Some(s) && ident_ok(d.subrange(p + 4, p + 8)) && s@ == decoded_ident(
            d.subrange(p + 4, p + 8),
        )
    } else {
        h.ecu_id is None
    })
    &&& (if htyp_has_session(d[p]) {
        h.session_id == Some(be_nat(d.subrange(ecu_end, ecu_end + 4)) as u32)
    } else {
        h.session_id is None
    })
    &&& (if htyp_has_timestamp(d[p]) {
        h.timestamp == Some(be_nat(d.subrange(ses_end, ses_end + 4)) as u32)
    } else {
        h.timestamp is None
    })
}

/// The standard header: a fixed 4-byte prefix and conditional fields
/// selected by the HTYP flag byte.
pub struct StandardHeader {
    pub htyp: u8,
    pub counter: usize,
    pub msg_length: usize,
    pub ecu_id: Option<String>,
    pub session_id: Option<u32>,
    pub timestamp: Option<u32>,
    pub length: usize,
}

impl StandardHeader {
    pub fn has_extended_header(&self) -> (r: bool)
        ensures
            r == htyp_has_ext(self.htyp),
    {
        self.htyp & 0x01 == 0x01
    }

    pub fn has_session_id(&self) -> (r: bool)
        ensures
            r == htyp_has_session(self.htyp),
    {
        self.htyp & 0x08 == 0x08
    }

    pub fn has_ecu_id(&self) -> (r: bool)
        ensures
            r == htyp_has_ecu(self.htyp),
    {
        self.htyp & 0x04 == 0x04
    }

    pub fn is_big_endian(&self) -> (r: bool)
        ensures
            r == htyp_is_be(self.htyp),
    {
        self.htyp & 0x02 == 0x02
    }

    pub fn has_timestamp(&self) -> (r: bool)
        ensures
            r == htyp_has_timestamp(self.htyp),
    {
        self.htyp & 0x10 == 0x10
    }

    pub fn version(&self) -> (r: u8)
        ensures
            r == htyp_version(self.htyp),
    {
        (self.htyp & 0xE0) >> 5
    }

    pub fn msg_len(&self) -> (r: usize)
        ensures
            r == self.msg_length,
    {
        self.msg_length
    }

    pub fn len(&self) -> (r: usize)
        ensures
            r == self.length,
    {
        self.length
    }

    pub fn ecu_id(&self) -> (r: &Option<String>)
        ensures
            r == self.ecu_id,
    {
        &self.ecu_id
    }
}

// Bit fields of the extended header's MSIN byte.
pub open spec fn msin_verbose(m: u8) -> bool {
    m & 0x01 == 0x01
}

pub open spec fn msin_type(m: u8) -> u8 {
    (m & 0x0E) >> 1
}

pub open spec fn msin_type_info(m: u8) -> u8 {
    (m & 0xF0) >> 4
}

/// The message type class encoded in bits 1-3 of MSIN.
#[derive(Clone, Copy, PartialEq, Eq, Structural, Debug)]
pub enum MessageType {
    Log,
    AppTrace,
    NetworkTrace,
    Control,
    Reserved,
}

#[derive(Clone, Copy, PartialEq, Eq, Structural, Debug)]
pub enum MessageTypeInfoLog {
    Fatal,
    Error,
    Warn,
    Info,
    Debug,
    Verbose,
}

#[derive(Clone, Copy, PartialEq, Eq, Structural, Debug)]
pub enum MessageTypeInfoAppTrace {
    Variable,
    FunctionIn,
    FunctionOut,
    State,
    Vfb,
}

#[derive(Clone, Copy, PartialEq, Eq, Structural, Debug)]
pub enum MessageTypeInfoNetworkTrace {
    Ipc,
    Can,
    FlexRay,
    Most,
    Ethernet,
    SomeIp,
    UserDefined,
}

#[derive(Clone, Copy, PartialEq, Eq, Structural, Debug)]
pub enum MessageTypeInfoControl {
    Request,
    Response,
}

/// What a decoded extended header holds, in terms of the ten bytes
/// starting at `p`.
pub open spec fn ext_header_matches(d: Seq<u8>, p: int, h: ExtendedHeader) -> bool {
    &&& h.msg_info == d[p]
    &&& h.num_of_args == (if msin_verbose(d[p]) {
        d[p + 1] as int
    } else {
        0int
    })
    &&& ident_ok(d.subrange(p + 2, p + 6))
    &&& h.app_id@ == decoded_ident(d.subrange(p + 2, p + 6))
    &&& ident_ok(d.subrange(p + 6, p + 10))
    &&& h.context_id@ == decoded_ident(d.subrange(p + 6, p + 10))
    &&& h.length == 10
}

/// The fixed 10-byte extended header.
pub struct ExtendedHeader {
    pub msg_info: u8,
    pub num_of_args: usize,
    pub app_id: String,
    pub context_id: String,
    pub length: usize,
}

impl ExtendedHeader {
    pub fn len(&self) -> (r: usize)
        ensures
            r == self.length,
    {
        self.length
    }

    pub fn number_of_arguments(&self) -> (r: usize)
        ensures
            r == self.num_of_args,
    {
        self.num_of_args
    }

    pub fn is_verbose(&self) -> (r: bool)
        ensures
            r == msin_verbose(self.msg_info),
    {
        self.msg_info & 0x01 == 0x01
    }

    pub fn app_id(&self) -> (r: &String)
        ensures
            r@ == self.app_id@,
    {
        &self.app_id
    }

    pub fn context_id(&self) -> (r: &String)
        ensures
            r@ == self.context_id@,
    {
        &self.context_id
    }

    pub fn msg_type(&self) -> (r: MessageType)
        ensures
            r == (match msin_type(self.msg_info) {
                0x00u8 => MessageType::Log,
                0x01u8 => MessageType::AppTrace,
                0x02u8 => MessageType::NetworkTrace,
                0x03u8 => MessageType::Control,
                _ => MessageType::Reserved,
            }),
    {
        match (self.msg_info & 0x0E) >> 1 {
            0x00 => MessageType::Log,
            0x01 => MessageType::AppTrace,
            0x02 => MessageType::NetworkTrace,
            0x03 => MessageType::Control,
            _ => MessageType::Reserved,
        }
    }

    pub fn msg_type_info_log(&self) -> (r: Option<MessageTypeInfoLog>)
        ensures
            r == (match msin_type_info(self.msg_info) {
                0x01u8 => Some(MessageTypeInfoLog::Fatal),
                0x02u8 => Some(MessageTypeInfoLog::Error),
                0x03u8 => Some(MessageTypeInfoLog::Warn),
                0x04u8 => Some(MessageTypeInfoLog::Info),
                0x05u8 => Some(MessageTypeInfoLog::Debug),
                0x06u8 => Some(MessageTypeInfoLog::Verbose),
                _ => None::<MessageTypeInfoLog>,
            }),
    {
        match (self.msg_info & 0xF0) >> 4 {
            0x01 => Some(MessageTypeInfoLog::Fatal),
            0x02 => Some(MessageTypeInfoLog::Error),
            0x03 => Some(MessageTypeInfoLog::Warn),
            0x04 => Some(MessageTypeInfoLog::Info),
            0x05 => Some(MessageTypeInfoLog::Debug),
            0x06 => Some(MessageTypeInfoLog::Verbose),
            _ => None,
        }
    }

    pub fn msg_type_info_app_trace(&self) -> (r: Option<MessageTypeInfoAppTrace>)
        ensures
            r == (match msin_type_info(self.msg_info) {
                0x01u8 => Some(MessageTypeInfoAppTrace::Variable),
                0x02u8 => Some(MessageTypeInfoAppTrace::FunctionIn),
                0x03u8 => Some(MessageTypeInfoAppTrace::FunctionOut),
                0x04u8 => Some(MessageTypeInfoAppTrace::State),
                0x05u8 => Some(MessageTypeInfoAppTrace::Vfb),
                _ => None::<MessageTypeInfoAppTrace>,
            }),
    {
        match (self.msg_info & 0xF0) >> 4 {
            0x01 => Some(MessageTypeInfoAppTrace::Variable),
            0x02 => Some(MessageTypeInfoAppTrace::FunctionIn),
            0x03 => Some(MessageTypeInfoAppTrace::FunctionOut),
            0x04 => Some(MessageTypeInfoAppTrace::State),
            0x05 => Some(MessageTypeInfoAppTrace::Vfb),
            _ => None,
        }
    }

    pub fn msg_type_info_network_trace(&self) -> (r: Option<MessageTypeInfoNetworkTrace>)
        ensures
            r == (match msin_type_info(self.msg_info) {
                0x01u8 => Some(MessageTypeInfoNetworkTrace::Ipc),
                0x02u8 => Some(MessageTypeInfoNetworkTrace::Can),
                0x03u8 => Some(MessageTypeInfoNetworkTrace::FlexRay),
                0x04u8 => Some(MessageTypeInfoNetworkTrace::Most),
                0x05u8 => Some(MessageTypeInfoNetworkTrace::Ethernet),
                0x06u8 => Some(MessageTypeInfoNetworkTrace::SomeIp),
                _ => Some(MessageTypeInfoNetworkTrace::UserDefined),
            }),
    {
        match (self.msg_info & 0xF0) >> 4 {
            0x01 => Some(MessageTypeInfoNetworkTrace::Ipc),
            0x02 => Some(MessageTypeInfoNetworkTrace::Can),
            0x03 => Some(MessageTypeInfoNetworkTrace::FlexRay),
            0x04 => Some(MessageTypeInfoNetworkTrace::Most),
            0x05 => Some(MessageTypeInfoNetworkTrace::Ethernet),
            0x06 => Some(MessageTypeInfoNetworkTrace::SomeIp),
            _ => Some(MessageTypeInfoNetworkTrace::UserDefined),
        }
    }

    pub fn msg_type_info_control(&self) -> (r: Option<MessageTypeInfoControl>)
        ensures
            r == (match msin_type_info(self.msg_info) {
                0x01u8 => Some(MessageTypeInfoControl::Request),
                0x02u8 => Some(MessageTypeInfoControl::Response),
                _ => None::<MessageTypeInfoControl>,
            }),
    {
        match (self.msg_info & 0xF0) >> 4 {
            0x01 => Some(MessageTypeInfoControl::Request),
            0x02 => Some(MessageTypeInfoControl::Response),
            _ => None,
        }
    }
}

/// Decodes the 16-byte storage header at the iterator's position.
///
/// On success the first four bytes of the record are exactly the DLT
/// magic pattern, and the iterator has advanced past all 16 bytes.
pub fn read_storage_header(iter: &mut TraceDataIter) -> (r: Result<StorageHeader, DltError>)
    ensures
        final(iter).data@ == old(iter).data@,
        ({
            let d = old(iter).data@;
            let p = old(iter).index as int;
            match r {
                Ok(h) => p + 16 <= d.len() && d.subrange(p, p + 4) == storage_pattern() && final(iter).index == p + 16 && storage_header_matches(d, p, h),
                Err(e) => final(iter).index == old(iter).index && (match e {
                    DltError::Truncated => p + 16 > d.len(),
                    DltError::BadMagic => p + 16 <= d.len() && d.subrange(p, p + 4)
                        != storage_pattern(),
                    DltError::InvalidUtf8 => p + 16 <= d.len() && d.subrange(p, p + 4)
                        == storage_pattern() && !ident_ok(d.subrange(p + 12, p + 16)),
                    _ => false,
                }),
            }
        }),
{
    let len = iter.data.len();
    if len < 16 || iter.index > len - 16 {
        return Err(DltError::Truncated);
    }
    let b0 = *vstd::slice::slice_index_get(iter.data, iter.index);
    let b1 = *vstd::slice::slice_index_get(iter.data, iter.index + 1);
    let b2 = *vstd::slice::slice_index_get(iter.data, iter.index + 2);
    let b3 = *vstd::slice::slice_index_get(iter.data, iter.index + 3);
    let ghost d = iter.data@;
    let ghost p = iter.index as int;
    if !(b0 == 0x44 && b1 == 0x4C && b2 == 0x54 && b3 == 0x01) {
        proof {
            assert(d.subrange(p, p + 4) != storage_pattern()) by {
                assert(storage_pattern()[0] == 0x44u8 && storage_pattern()[1] == 0x4Cu8
                    && storage_pattern()[2] == 0x54u8 && storage_pattern()[3] == 0x01u8);
            };
        }
        return Err(DltError::BadMagic);
    }
    proof {
        assert(d.subrange(p, p + 4) =~= storage_pattern());
    }
    let conv = ByteConverter::FromBigEndian;
    let mut cur = Cursor::new(iter.data, iter.index + 4);
    let sec = match cur.read_u32(&conv) {
        Ok(v) => v,
        Err(e) => {
            return Err(e);
        },
    };
    let usec = match cur.read_u32(&conv) {
        Ok(v) => v,
        Err(e) => {
            return Err(e);
        },
    };
    let ecu = match cur.read_fixed_ascii(4) {
        Ok(s) => s,
        Err(e) => {
            return Err(e);
        },
    };
    iter.index = cur.pos();
    Ok(StorageHeader { timestamp_sec: sec, timestamp_usec: usec, ecu })
}

/// Decodes the standard header at the iterator's position: the HTYP flag
/// byte, counter, total message length, and the conditional identifier,
/// session and timestamp fields the flags select.
pub fn read_standard_header(iter: &mut TraceDataIter) -> (r: Result<StandardHeader, DltError>)
    ensures
        final(iter).data@ == old(iter).data@,
        ({
            let d = old(iter).data@;
            let p = old(iter).index as int;
            match r {
                Ok(h) => p + std_header_len(d[p]) <= d.len() && final(iter).index == p
                    + std_header_len(d[p]) && std_header_matches(d, p, h),
                Err(e) => final(iter).index == old(iter).index && (match e {
                    DltError::Truncated => p >= d.len() || p + std_header_len(d[p]) > d.len(),
                    DltError::InvalidUtf8 => p < d.len() && p + std_header_len(d[p]) <= d.len()
                        && htyp_has_ecu(d[p]) && !ident_ok(d.subrange(p + 4, p + 8)),
                    _ => false,
                }),
            }
        }),
{
    let len = iter.data.len();
    if iter.index >= len {
        return Err(DltError::Truncated);
    }
    let htyp = *vstd::slice::slice_index_get(iter.data, iter.index);
    let has_ecu = htyp & 0x04 == 0x04;
    let has_session = htyp & 0x08 == 0x08;
    let has_timestamp = htyp & 0x10 == 0x10;
    let needed: usize = 4 + (if has_ecu {
        4usize
    } else {
        0usize
    }) + (if has_session {
        4usize
    } else {
        0usize
    }) + (if has_timestamp {
        4usize
    } else {
        0usize
    });
    if needed > len || iter.index > len - needed {
        return Err(DltError::Truncated);
    }
    let conv = ByteConverter::FromBigEndian;
    let mut cur = Cursor::new(iter.data, iter.index + 2);
    let counter = *vstd::slice::slice_index_get(iter.data, iter.index + 1);
    let msg_length = match cur.read_u16(&conv) {
        Ok(v) => v,
        Err(e) => {
            return Err(e);
        },
    };
    let ecu_id = if has_ecu {
        match cur.read_fixed_ascii(4) {
            Ok(s) => Some(s),
            Err(e) => {
                return Err(e);
            },
        }
    } else {
        None
    };
    let session_id = if has_session {
        match cur.read_u32(&conv) {
            Ok(v) => Some(v),
            Err(e) => {
                return Err(e);
            },
        }
    } else {
        None
    };
    let timestamp = if has_timestamp {
        match cur.read_u32(&conv) {
            Ok(v) => Some(v),
            Err(e) => {
                return Err(e);
            },
        }
    } else {
        None
    };
    let end = cur.pos();
    let consumed = end - iter.index;
    iter.index = end;
    Ok(
        StandardHeader {
            htyp,
            counter: counter as usize,
            msg_length: msg_length as usize,
            ecu_id,
            session_id,
            timestamp,
            length: consumed,
        },
    )
}

/// Decodes the fixed 10-byte extended header at the iterator's position.
///
/// When the MSIN byte does not have the verbose bit set, the decoded
/// argument count is zero regardless of the count byte's value.
pub fn read_extended_header(iter: &mut TraceDataIter) -> (r: Result<ExtendedHeader, DltError>)
    ensures
        final(iter).data@ == old(iter).data@,
        ({
            let d = old(iter).data@;
            let p = old(iter).index as int;
            match r {
                Ok(h) => p + 10 <= d.len() && final(iter).index == p + 10 && ext_header_matches(
                    d,
                    p,
                    h,
                ) && (!msin_verbose(h.msg_info) ==> h.num_of_args == 0),
                Err(e) => final(iter).index == old(iter).index && (match e {
                    DltError::Truncated => p + 10 > d.len(),
                    DltError::InvalidUtf8 => p + 10 <= d.len() && !(ident_ok(
                        d.subrange(p + 2, p + 6),
                    ) && ident_ok(d.subrange(p + 6, p + 10))),
                    _ => false,
                }),
            }
        }),
{
    let len = iter.data.len();
    if len < 10 || iter.index > len - 10 {
        return Err(DltError::Truncated);
    }
    let msg_info = *vstd::slice::slice_index_get(iter.data, iter.index);
    let count_byte = *vstd::slice::slice_index_get(iter.data, iter.index + 1);
    let num_arguments: usize = if msg_info & 0x01 == 0x01 {
        count_byte as usize
    } else {
        0
    };
    let mut cur = Cursor::new(iter.data, iter.index + 2);
    let app_id = match cur.read_fixed_ascii(4) {
        Ok(s) => s,
        Err(e) => {
            return Err(e);
        },
    };
    let context_id = match cur.read_fixed_ascii(4) {
        Ok(s) => s,
        Err(e) => {
            return Err(e);
        },
    };
    iter.index = cur.pos();
    Ok(
        ExtendedHeader {
            msg_info,
            num_of_args: num_arguments,
            app_id,
            context_id,
            length: 10,
        },
    )
}

} // verus!
