//! The one-byte record header: six meaningful bits controlling message
//! chaining, length-field width, identifier presence, and the three-bit
//! type-name-format (TNF) selector.

use vstd::prelude::*;

verus! {

/// The three-bit type-name-format field of a record header. It selects how a
/// record's type identifier is interpreted; this codec understands only
/// `NfcWellKnown` and `NfcExternal` and reports every other value as an
/// unsupported-format error during decoding.
#[derive(Clone, Debug, PartialEq, Eq)]
pub enum TypeNameFormat {
    Empty,
    NfcWellKnown,
    Media,
    AbsoluteUri,
    NfcExternal,
    Unknown,
    Unchanged,
    Reserved,
}

/// The wire value of a type-name-format variant (bits 2-0 of the header).
pub open spec fn tnf_value(tnf: TypeNameFormat) -> u8 {
    match tnf {
        TypeNameFormat::Empty => 0x00,
        TypeNameFormat::NfcWellKnown => 0x01,
        TypeNameFormat::Media => 0x02,
        TypeNameFormat::AbsoluteUri => 0x03,
        TypeNameFormat::NfcExternal => 0x04,
        TypeNameFormat::Unknown => 0x05,
        TypeNameFormat::Unchanged => 0x06,
        TypeNameFormat::Reserved => 0x07,
    }
}

/// The variant selected by the low three bits of a header byte. Values above
/// seven cannot occur after masking; they map to `Reserved` to keep the
/// function total.
pub open spec fn tnf_of_bits(bits: u8) -> TypeNameFormat {
    if bits == 0x00 {
        TypeNameFormat::Empty
    } else if bits == 0x01 {
        TypeNameFormat::NfcWellKnown
    } else if bits == 0x02 {
        TypeNameFormat::Media
    } else if bits == 0x03 {
        TypeNameFormat::AbsoluteUri
    } else if bits == 0x04 {
        TypeNameFormat::NfcExternal
    } else if bits == 0x05 {
        TypeNameFormat::Unknown
    } else if bits == 0x06 {
        TypeNameFormat::Unchanged
    } else {
        TypeNameFormat::Reserved
    }
}

/// Bit 7 of a header byte: this record is the first of its message.
pub open spec fn hdr_message_begin(h: u8) -> bool {
    h & 0x80 == 0x80
}

/// Bit 6 of a header byte: this record is the last of its message.
pub open spec fn hdr_message_end(h: u8) -> bool {
    h & 0x40 == 0x40
}

/// Bit 4 of a header byte: the payload length is one byte wide (otherwise it
/// is four bytes, big-endian).
pub open spec fn hdr_short_record(h: u8) -> bool {
    h & 0x10 == 0x10
}

/// Bit 3 of a header byte: an identifier-length byte and an identifier field
/// are present in the record.
pub open spec fn hdr_id_present(h: u8) -> bool {
    h & 0x08 == 0x08
}

/// Bits 2-0 of a header byte: the raw type-name-format value.
pub open spec fn hdr_tnf(h: u8) -> u8 {
    h & 0x07
}

/// A record header as it appears on the wire: a single byte whose bits are
/// read and written through the methods below.
#[derive(Clone, Copy, Debug, PartialEq, Eq)]
pub struct Header(pub u8);

impl Default for Header {
    /// A cleared header: no flags set, type-name-format `Empty`.
    fn default() -> (r: Self)
        ensures
            r.0 == 0,
    {
        Header(0)
    }
}

impl Header {
    /// Reads the message-begin flag (bit 7).
    pub fn message_begin(&self) -> (r: bool)
        ensures
            r == hdr_message_begin(self.0),
    {
        self.0 & 0x80 == 0x80
    }

    /// Sets the message-begin flag (bit 7), leaving all other bits untouched.
    pub fn set_message_begin(&mut self)
        ensures
            final(self).0 == old(self).0 | 0x80,
    {
        self.0 = self.0 | 0x80;
    }

    /// Reads the message-end flag (bit 6).
    pub fn message_end(&self) -> (r: bool)
        ensures
            r == hdr_message_end(self.0),
    {
        self.0 & 0x40 == 0x40
    }

    /// Sets the message-end flag (bit 6), leaving all other bits untouched.
    pub fn set_message_end(&mut self)
        ensures
            final(self).0 == old(self).0 | 0x40,
    {
        self.0 = self.0 | 0x40;
    }

    /// Clears the message-end flag (bit 6), leaving all other bits untouched.
    pub fn clr_message_end(&mut self)
        ensures
            final(self).0 == old(self).0 & 0xbf,
    {
        self.0 = self.0 & 0xbf;
    }

    /// Reads the short-record flag (bit 4).
    pub fn short_record(&self) -> (r: bool)
        ensures
            r == hdr_short_record(self.0),
    {
        self.0 & 0x10 == 0x10
    }

    /// Sets the short-record flag (bit 4), leaving all other bits untouched.
    pub fn set_short_record(&mut self)
        ensures
            final(self).0 == old(self).0 | 0x10,
    {
        self.0 = self.0 | 0x10;
    }

    /// Reads the identifier-present flag (bit 3).
    pub fn id_length(&self) -> (r: bool)
        ensures
            r == hdr_id_present(self.0),
    {
        self.0 & 0x08 == 0x08
    }

    /// Sets the identifier-present flag (bit 3), leaving all other bits
    /// untouched.
    pub fn set_id_length(&mut self)
        ensures
            final(self).0 == old(self).0 | 0x08,
    {
        self.0 = self.0 | 0x08;
    }

    /// Decodes bits 2-0 into the type-name-format enumeration.
    pub fn type_name_format(&self) -> (r: TypeNameFormat)
        ensures
            r == tnf_of_bits(hdr_tnf(self.0)),
    {
        let bits = self.0 & 0x07;
        if bits == 0x00 {
            TypeNameFormat::Empty
        } else if bits == 0x01 {
            TypeNameFormat::NfcWellKnown
        } else if bits == 0x02 {
            TypeNameFormat::Media
        } else if bits == 0x03 {
            TypeNameFormat::AbsoluteUri
        } else if bits == 0x04 {
            TypeNameFormat::NfcExternal
        } else if bits == 0x05 {
            TypeNameFormat::Unknown
        } else if bits == 0x06 {
            TypeNameFormat::Unchanged
        } else {
            TypeNameFormat::Reserved
        }
    }

    /// Writes the type-name-format into bits 2-0: those three bits are
    /// cleared and rewritten, and every other bit is left untouched.
    pub fn set_type_name_format(&mut self, tnf: TypeNameFormat)
        ensures
            final(self).0 == (old(self).0 & 0xf8) | tnf_value(tnf),
    {
        let v: u8 = match tnf {
            TypeNameFormat::Empty => 0x00,
            TypeNameFormat::NfcWellKnown => 0x01,
            TypeNameFormat::Media => 0x02,
            TypeNameFormat::AbsoluteUri => 0x03,
            TypeNameFormat::NfcExternal => 0x04,
            TypeNameFormat::Unknown => 0x05,
            TypeNameFormat::Unchanged => 0x06,
            TypeNameFormat::Reserved => 0x07,
        };
        self.0 = (self.0 & 0xf8) | v;
    }
}

} // verus!
