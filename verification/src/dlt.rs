//! Log-trace message extraction over the DLT wire format.  The frame
//! scanner of the `dlt_core` crate finds one message — a sixteen-byte
//! storage header followed by a standard header that gives the frame
//! length — and the parsers here turn what it found into range and raw
//! messages, with the byte-accurate bookkeeping proved.

use vstd::prelude::*;
use crate::decimal::{dec_rep, u64_string};

verus! {

/// An error from message extraction: the input does not hold a well-formed
/// message, and the text says why — an input that merely ends before the
/// message does is reported the same way, with the scanner's own words.
#[derive(Clone, Debug, PartialEq, Eq)]
pub enum ParseError {
    Parse(String),
}

/// What one successful parse step yields.
#[derive(Clone, Debug, PartialEq, Eq)]
pub enum ParseYield<T> {
    /// One extracted message.
    Message(T),
}

/// A half-open range of byte positions.
#[derive(Clone, Copy, Debug, PartialEq, Eq, Structural)]
pub struct ByteRange {
    pub start: usize,
    pub end: usize,
}

/// A message carrying only the byte range it occupies in the stream.
#[derive(Clone, Copy, Debug, PartialEq, Eq, Structural)]
pub struct RangeMessage {
    pub range: ByteRange,
}

/// The big-endian encoding of a 64-bit number, most significant byte
/// first.
pub open spec fn be64(n: u64) -> Seq<u8> {
    seq![
        ((n >> 56) & 0xff) as u8,
        ((n >> 48) & 0xff) as u8,
        ((n >> 40) & 0xff) as u8,
        ((n >> 32) & 0xff) as u8,
        ((n >> 24) & 0xff) as u8,
        ((n >> 16) & 0xff) as u8,
        ((n >> 8) & 0xff) as u8,
        (n & 0xff) as u8,
    ]
}

impl RangeMessage {
    /// The wire form of a range message: the start and the end, each as
    /// eight big-endian bytes.
    pub fn to_bytes(&self) -> (r: Vec<u8>)
        ensures
            r@ == be64(self.range.start as u64) + be64(self.range.end as u64),
            r@.len() == 16,
    {
        let mut v: Vec<u8> = Vec::new();
        push_be64(&mut v, self.range.start as u64);
        push_be64(&mut v, self.range.end as u64);
        proof {
            assert(v@ =~= be64(self.range.start as u64) + be64(self.range.end as u64));
        }
        v
    }
}

/// Appends the eight big-endian bytes of a number.
fn push_be64(v: &mut Vec<u8>, n: u64)
    ensures
        final(v)@ == old(v)@ + be64(n),
{
    v.push(((n >> 56) & 0xff) as u8);
    v.push(((n >> 48) & 0xff) as u8);
    v.push(((n >> 40) & 0xff) as u8);
    v.push(((n >> 32) & 0xff) as u8);
    v.push(((n >> 24) & 0xff) as u8);
    v.push(((n >> 16) & 0xff) as u8);
    v.push(((n >> 8) & 0xff) as u8);
    v.push((n & 0xff) as u8);
    proof {
        assert(v@ =~= old(v)@ + be64(n));
    }
}

/// The display text of a byte range: the range notation in parentheses.
pub open spec fn range_display(start: nat, end: nat) -> Seq<char> {
    "("@ + dec_rep(start) + ".."@ + dec_rep(end) + ")"@
}

impl RangeMessage {
    /// The display text of a range message: `(start..end)`.
    pub fn render(&self) -> (r: String)
        ensures
            r@ == range_display(self.range.start as nat, self.range.end as nat),
    {
        let mut s = "(".to_owned();
        let start_txt = u64_string(self.range.start as u64);
        s.append(start_txt.as_str());
        s.append("..");
        let end_txt = u64_string(self.range.end as u64);
        s.append(end_txt.as_str());
        s.append(")");
        proof {
            assert(s@ =~= range_display(self.range.start as nat, self.range.end as nat));
        }
        s
    }
}

/// The character of one hexadecimal digit, upper case.
pub open spec fn hex_char(d: int) -> char {
    if d == 0 { '0' }
    else if d == 1 { '1' }
    else if d == 2 { '2' }
    else if d == 3 { '3' }
    else if d == 4 { '4' }
    else if d == 5 { '5' }
    else if d == 6 { '6' }
    else if d == 7 { '7' }
    else if d == 8 { '8' }
    else if d == 9 { '9' }
    else if d == 10 { 'A' }
    else if d == 11 { 'B' }
    else if d == 12 { 'C' }
    else if d == 13 { 'D' }
    else if d == 14 { 'E' }
    else { 'F' }
}

/// One byte as two upper-case hexadecimal digits.
pub open spec fn byte_hex(b: u8) -> Seq<char> {
    seq![hex_char(b as int / 16), hex_char(b as int % 16)]
}

/// Bytes as hexadecimal pairs joined by comma and space.
pub open spec fn bytes_hex_list(bytes: Seq<u8>) -> Seq<char>
    decreases bytes.len(),
{
    if bytes.len() == 0 {
        Seq::empty()
    } else if bytes.len() == 1 {
        byte_hex(bytes[0])
    } else {
        bytes_hex_list(bytes.drop_last()) + ", "@ + byte_hex(bytes.last())
    }
}

/// The display text of a raw message: its bytes as a bracketed
/// hexadecimal list, itself bracketed.
pub open spec fn raw_display(bytes: Seq<u8>) -> Seq<char> {
    "[["@ + bytes_hex_list(bytes) + "]]"@
}

/// The text of one hexadecimal digit.
fn hex_str(d: u8) -> (r: &'static str)
    requires
        d < 16,
    ensures
        r@ == seq![hex_char(d as int)],
{
    let r: &'static str = match d {
        0 => "0",
        1 => "1",
        2 => "2",
        3 => "3",
        4 => "4",
        5 => "5",
        6 => "6",
        7 => "7",
        8 => "8",
        9 => "9",
        10 => "A",
        11 => "B",
        12 => "C",
        13 => "D",
        14 => "E",
        _ => "F",
    };
    proof {
        reveal_strlit("0");
        reveal_strlit("1");
        reveal_strlit("2");
        reveal_strlit("3");
        reveal_strlit("4");
        reveal_strlit("5");
        reveal_strlit("6");
        reveal_strlit("7");
        reveal_strlit("8");
        reveal_strlit("9");
        reveal_strlit("A");
        reveal_strlit("B");
        reveal_strlit("C");
        reveal_strlit("D");
        reveal_strlit("E");
        reveal_strlit("F");
        assert(r@ =~= seq![hex_char(d as int)]);
    }
    r
}

/// A message carrying the raw bytes of one frame.
#[derive(Clone, Debug, PartialEq, Eq)]
pub struct RawMessage {
    pub content: Vec<u8>,
}

impl RawMessage {
    /// The wire form of a raw message: its bytes as they came.
    pub fn to_bytes(&self) -> (r: Vec<u8>)
        ensures
            r@ == self.content@,
    {
        self.content.clone()
    }

    /// The display text of a raw message: `[[AA, BB, ...]]`.
    pub fn render(&self) -> (r: String)
        ensures
            r@ == raw_display(self.content@),
    {
        let mut s = "[[".to_owned();
        let n = self.content.len();
        let mut i: usize = 0;
        while i < n
            invariant
                n == self.content@.len(),
                i <= n,
                s@ =~= "[["@ + bytes_hex_list(self.content@.subrange(0, i as int)),
            decreases n - i,
        {
            if i > 0 {
                s.append(", ");
            }
            let b = self.content[i];
            let hi = hex_str(b / 16);
            s.append(hi);
            let lo = hex_str(b % 16);
            s.append(lo);
            proof {
                let prefix = self.content@.subrange(0, i + 1 as int);
                assert(prefix.drop_last() =~= self.content@.subrange(0, i as int));
                assert(prefix.last() == self.content@[i as int]);
                assert(s@ =~= "[["@ + bytes_hex_list(prefix));
            }
            i += 1;
        }
        s.append("]]");
        proof {
            assert(self.content@.subrange(0, n as int) =~= self.content@);
            assert(s@ =~= raw_display(self.content@));
        }
        s
    }
}

/// The byte count of the frame that opens a nonempty byte sequence, if the
/// scanner accepts one: the sixteen bytes of the storage header plus the
/// length its standard header declares.  A function of the bytes alone;
/// absent exactly when the scanner rejects the sequence.
pub uninterp spec fn dlt_frame(input: Seq<u8>) -> Option<u64>;

/// Relies on `dlt_core::parse::dlt_consume_msg`: on empty input it returns
/// the input back and no count; otherwise it succeeds exactly when the
/// input opens with a well-formed frame — `dlt_frame` — and then returns
/// the rest after the frame and the consumed byte count, at least the
/// storage header's sixteen bytes and at most the whole input; on any
/// other input it fails, and the error's text is handed back.  The scanner
/// reads nothing but its argument, so its outcome is a function of the
/// bytes alone.
#[verifier::external_body]
fn consume_msg<'b>(input: &'b [u8]) -> (r: Result<(&'b [u8], Option<u64>), String>)
    ensures
        match r {
            Ok((rest, consumed)) => match consumed {
                Some(n) => input@.len() > 0 && dlt_frame(input@) == Some(n) && 16 <= n
                    <= input@.len() && rest@ == input@.subrange(n as int, input@.len() as int),
                None => input@.len() == 0 && rest@ == input@,
            },
            Err(_) => input@.len() > 0 && dlt_frame(input@) is None,
        },
        input@.len() == 0 ==> r is Ok,
{
    dlt_core::parse::dlt_consume_msg(input).map_err(|e| format!("{e}"))
}

/// Extracts the byte range of each message of a stream, keeping a running
/// offset.
#[derive(Clone, Copy, Debug, PartialEq, Eq, Structural)]
pub struct DltRangeParser {
    pub offset: usize,
}

impl DltRangeParser {
    /// A fresh parser at offset zero.
    pub fn new() -> (r: DltRangeParser)
        ensures
            r.offset == 0,
    {
        DltRangeParser { offset: 0 }
    }

    /// One parse step.  Empty input yields no message.  Nonempty input
    /// succeeds exactly when it opens with a well-formed frame: on a frame
    /// of `c` bytes the offset advances by `c`, and the yielded range
    /// spans the `c` bytes from the advanced offset on; otherwise the
    /// scanner's error text is returned and nothing changes.
    pub fn parse<'b>(&mut self, input: &'b [u8], timestamp: Option<u64>) -> (r: Result<
        (&'b [u8], Option<ParseYield<RangeMessage>>),
        ParseError,
    >)
        requires
            old(self).offset + 2 * input@.len() <= usize::MAX,
        ensures
            input@.len() == 0 ==> (r matches Ok((rest, yielded)) && rest@ == input@ && yielded
                is None && *final(self) == *old(self)),
            input@.len() > 0 ==> match r {
                Ok((rest, yielded)) => {
                    let consumed = input@.len() - rest@.len();
                    &&& dlt_frame(input@) matches Some(n) && n == consumed
                    &&& yielded matches Some(ParseYield::Message(m)) && m.range.start == old(
                        self,
                    ).offset + consumed && m.range.end == old(self).offset + 2 * consumed
                    &&& 16 <= consumed <= input@.len()
                    &&& rest@ == input@.subrange(consumed as int, input@.len() as int)
                    &&& final(self).offset == old(self).offset + consumed
                },
                Err(e) => dlt_frame(input@) is None && e is Parse && *final(self) == *old(self),
            },
    {
        let _ = timestamp;
        let input_len = input.len();
        match consume_msg(input) {
            Err(e) => Err(ParseError::Parse(e)),
            Ok((rest, consumed)) => match consumed {
                None => Ok((rest, None)),
                Some(c) => {
                    proof {
                        assert(c <= input_len);
                    }
                    let c_us = c as usize;
                    self.offset = self.offset + c_us;
                    let m = RangeMessage {
                        range: ByteRange { start: self.offset, end: self.offset + c_us },
                    };
                    Ok((rest, Some(ParseYield::Message(m))))
                }
            },
        }
    }
}

/// Extracts each message of a stream as its raw bytes.
#[derive(Clone, Copy, Debug, PartialEq, Eq, Structural)]
pub struct DltRawParser {
    /// Whether extracted frames open with a storage header.
    pub with_storage_header: bool,
}

impl DltRawParser {
    pub fn new(with_storage_header: bool) -> (r: DltRawParser)
        ensures
            r.with_storage_header == with_storage_header,
    {
        DltRawParser { with_storage_header }
    }

    /// One parse step: scans one message frame of `input` and yields its
    /// bytes — the consumed prefix of the input, verbatim.  Empty input
    /// yields no message.  Nonempty input succeeds exactly when it opens
    /// with a well-formed frame; otherwise the scanner's error text is
    /// returned.
    pub fn parse<'b>(&mut self, input: &'b [u8], timestamp: Option<u64>) -> (r: Result<
        (&'b [u8], Option<ParseYield<RawMessage>>),
        ParseError,
    >)
        ensures
            input@.len() == 0 ==> (r matches Ok((rest, yielded)) && rest@ == input@ && yielded
                is None),
            input@.len() > 0 ==> match r {
                Ok((rest, yielded)) => {
                    let consumed = input@.len() - rest@.len();
                    &&& dlt_frame(input@) matches Some(n) && n == consumed
                    &&& yielded matches Some(ParseYield::Message(m)) && m.content@
                        == input@.subrange(0, consumed as int)
                    &&& 16 <= consumed <= input@.len()
                    &&& rest@ == input@.subrange(consumed as int, input@.len() as int)
                },
                Err(e) => dlt_frame(input@) is None && e is Parse,
            },
            *final(self) == *old(self),
    {
        let _ = timestamp;
        let input_len = input.len();
        match consume_msg(input) {
            Err(e) => Err(ParseError::Parse(e)),
            Ok((rest, consumed)) => match consumed {
                None => Ok((rest, None)),
                Some(c) => {
                    proof {
                        assert(c <= input_len);
                    }
                    let c_us = c as usize;
                    let mut content: Vec<u8> = Vec::new();
                    let mut k: usize = 0;
                    while k < c_us
                        invariant
                            c_us <= input@.len(),
                            k <= c_us,
                            content@ == input@.subrange(0, k as int),
                        decreases c_us - k,
                    {
                        content.push(input[k]);
                        proof {
                            assert(content@ =~= input@.subrange(0, k + 1 as int));
                        }
                        k += 1;
                    }
                    let m = RawMessage { content };
                    Ok((rest, Some(ParseYield::Message(m))))
                }
            },
        }
    }
}

} // verus!
