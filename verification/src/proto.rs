//! Wire-level protobuf primitives used by the gRPC reflection path:
//! varint decoding and encoding, tags, and length-delimited fields.

use vstd::prelude::*;
use vstd::utf8::{encode_utf8, valid_utf8};
use vstd::string::StringSliceAdditionalSpecFns;

verus! {

/// The index just past the varint starting at `pos`, or -1 where the data
/// ends first or the varint runs past ten bytes.
pub open spec fn varint_end(data: Seq<u8>, pos: int, fuel: int) -> int
    decreases fuel,
{
    if pos < 0 || pos >= data.len() || fuel < 1 {
        -1
    } else if data[pos] < 128 {
        pos + 1
    } else {
        varint_end(data, pos + 1, fuel - 1)
    }
}

/// The value of the 7-bit groups starting at `pos`, little-endian.
pub open spec fn varint_value(data: Seq<u8>, pos: int) -> int
    decreases data.len() - pos,
{
    if pos < 0 || pos >= data.len() {
        0
    } else if data[pos] < 128 {
        data[pos] as int
    } else {
        (data[pos] - 128) + 128 * varint_value(data, pos + 1)
    }
}

pub proof fn lemma_varint_end_bounds(data: Seq<u8>, pos: int, fuel: int)
    requires
        0 <= pos,
    ensures
        varint_end(data, pos, fuel) == -1 || pos < varint_end(data, pos, fuel) <= data.len(),
    decreases fuel,
{
    if !(pos >= data.len() || fuel < 1) && data[pos] >= 128 {
        lemma_varint_end_bounds(data, pos + 1, fuel - 1);
    }
}

/// The bytes that encode a value as a varint.
pub open spec fn varint_bytes(v: int) -> Seq<u8>
    decreases v,
{
    if v < 128 {
        seq![v as u8]
    } else {
        seq![(v % 128 + 128) as u8] + varint_bytes(v / 128)
    }
}

/// A cursor over serialized protobuf bytes.
pub struct ProtoReader<'a> {
    pub data: &'a [u8],
    pub pos: usize,
}

impl<'a> ProtoReader<'a> {
    pub open spec fn wf(&self) -> bool {
        self.pos <= self.data@.len()
    }

    pub fn new(data: &'a [u8]) -> (r: Self)
        ensures
            r.wf(),
            r.data@ == data@,
            r.pos == 0,
    {
        ProtoReader { data, pos: 0 }
    }

    /// Whether any input is left.
    pub fn remaining(&self) -> (r: bool)
        requires
            self.wf(),
        ensures
            r == (self.pos < self.data@.len()),
    {
        self.pos < self.data.len()
    }

    /// Read one varint: its value modulo two to the sixty-fourth, as the
    /// wire format truncates. Fails where the data ends inside the varint
    /// or the varint runs past ten bytes.
    pub fn read_varint(&mut self) -> (r: Result<u64, String>)
        requires
            old(self).wf(),
        ensures
            final(self).wf(),
            final(self).data@ == old(self).data@,
            match r {
                Ok(v) => {
                    &&& varint_end(old(self).data@, old(self).pos as int, 10) >= 0
                    &&& final(self).pos as int == varint_end(old(self).data@, old(self).pos as int, 10)
                    &&& v as int == varint_value(old(self).data@, old(self).pos as int)
                        % 0x1_0000_0000_0000_0000
                },
                Err(_) => varint_end(old(self).data@, old(self).pos as int, 10) == -1,
            },
    {
        let ghost start = self.pos as int;
        let ghost data = self.data@;
        let mut acc: u128 = 0;
        let mut mult: u128 = 1;
        let mut used: u64 = 0;
        loop
            invariant
                self.wf(),
                self.data@ == data,
                data == old(self).data@,
                start == old(self).pos as int,
                start <= self.pos as int <= data.len(),
                0 <= used <= 9,
                self.pos as int == start + used,
                mult == pow128(used as int),
                acc < mult,
                varint_end(data, start, 10) == varint_end(data, self.pos as int, 10 - used),
                varint_value(data, start) == acc + mult * varint_value(data, self.pos as int),
            decreases data.len() - self.pos,
        {
            if self.pos >= self.data.len() {
                return Err("Unexpected end of data reading varint".to_owned());
            }
            let byte = self.data[self.pos];
            let ghost cur = self.pos as int;
            proof {
                assert(varint_value(data, cur) == (if byte < 128 {
                    byte as int
                } else {
                    (byte - 128) + 128 * varint_value(data, cur + 1)
                }));
                lemma_pow128_bounds(used as int + 1);
                assert(pow128(used as int + 1) == 128 * pow128(used as int));
                assert(acc + mult * 127 < 128 * mult) by (nonlinear_arith)
                    requires
                        acc < mult,
                        mult >= 1,
                ;
                assert(mult * ((byte as int) % 128) <= mult * 127) by (nonlinear_arith)
                    requires
                        mult >= 1,
                ;
            }
            let ghost acc0 = acc as int;
            let ghost mult0 = mult as int;
            self.pos = self.pos + 1;
            if byte < 128 {
                acc = acc + mult * (byte as u128);
                proof {
                    assert(varint_value(data, cur) == byte as int);
                    assert(acc == acc0 + mult0 * (byte as int));
                    assert(varint_value(data, start) == acc0 + mult0 * varint_value(data, cur));
                    assert(varint_value(data, start) == acc);
                    assert(varint_end(data, cur, 10 - used) == cur + 1);
                }
                let out64: u64 = (acc % 0x1_0000_0000_0000_0000u128) as u64;
                proof {
                    assert(out64 as int == acc as int % 0x1_0000_0000_0000_0000);
                }
                return Ok(out64);
            }
            acc = acc + mult * ((byte - 128) as u128);
            mult = mult * 128;
            used = used + 1;
            proof {
                let vv1 = varint_value(data, cur + 1);
                lemma_varint_value_nonneg(data, cur + 1);
                assert(varint_value(data, cur) == (byte - 128) + 128 * vv1);
                assert(acc0 + mult0 * ((byte as int - 128) + 128 * vv1) == (acc0 + mult0 * (
                byte as int - 128)) + (128 * mult0) * vv1) by (nonlinear_arith);
                assert(varint_value(data, start) == acc + mult * varint_value(
                    data,
                    self.pos as int,
                ));
            }
            if used >= 10 {
                proof {
                    assert(varint_end(data, cur, 1) == varint_end(data, cur + 1, 0));
                    assert(varint_end(data, cur + 1, 0) == -1);
                }
                return Err("Varint too long".to_owned());
            }
        }
    }

    /// Read one field tag: the field number (the varint shifted down by
    /// three, truncated to 32 bits) and the wire type (its low three
    /// bits).
    pub fn read_tag(&mut self) -> (r: Result<(u32, u32), String>)
        requires
            old(self).wf(),
        ensures
            final(self).wf(),
            final(self).data@ == old(self).data@,
            match r {
                Ok(t) => {
                    &&& varint_end(old(self).data@, old(self).pos as int, 10) >= 0
                    &&& final(self).pos as int == varint_end(old(self).data@, old(self).pos as int, 10)
                    &&& t.0 as int == (varint_value(old(self).data@, old(self).pos as int)
                        % 0x1_0000_0000_0000_0000) / 8 % 0x1_0000_0000
                    &&& t.1 as int == varint_value(old(self).data@, old(self).pos as int) % 8
                },
                Err(_) => varint_end(old(self).data@, old(self).pos as int, 10) == -1,
            },
    {
        let ghost data = old(self).data@;
        let ghost start = old(self).pos as int;
        let v = match self.read_varint() {
            Ok(v) => v,
            Err(m) => {
                return Err(m);
            },
        };
        let field = ((v / 8) % 0x1_0000_0000u64) as u32;
        let wire = (v % 8) as u32;
        proof {
            lemma_varint_value_nonneg(data, start);
            assert(wire as int == varint_value(data, start) % 8) by (nonlinear_arith)
                requires
                    v as int == varint_value(data, start) % 0x1_0000_0000_0000_0000,
                    wire == v % 8,
                    varint_value(data, start) >= 0,
            ;
        }
        Ok((field, wire))
    }

    /// Read one length-delimited field: its length as a varint, then that
    /// many bytes. Fails exactly where the length's varint is malformed or
    /// the length runs past the data.
    pub fn read_bytes(&mut self) -> (r: Result<&'a [u8], String>)
        requires
            old(self).wf(),
        ensures
            final(self).wf(),
            final(self).data@ == old(self).data@,
            match r {
                Ok(s) => {
                    let e = varint_end(old(self).data@, old(self).pos as int, 10);
                    &&& e >= 0
                    &&& s@.len() == varint_value(old(self).data@, old(self).pos as int)
                        % 0x1_0000_0000_0000_0000
                    &&& final(self).pos == e + s@.len()
                    &&& s@ == old(self).data@.subrange(e, final(self).pos as int)
                },
                Err(_) => {
                    let e = varint_end(old(self).data@, old(self).pos as int, 10);
                    e == -1 || varint_value(old(self).data@, old(self).pos as int)
                        % 0x1_0000_0000_0000_0000 > old(self).data@.len() - e
                },
            },
    {
        let len64 = match self.read_varint() {
            Ok(v) => v,
            Err(m) => {
                return Err(m);
            },
        };
        proof {
            lemma_varint_end_bounds(self.data@, old(self).pos as int, 10);
        }
        let avail = self.data.len() - self.pos;
        if len64 > avail as u64 {
            return Err("Unexpected end of data reading bytes".to_owned());
        }
        let len = len64 as usize;
        let slice = slice_range(self.data, self.pos, self.pos + len);
        self.pos = self.pos + len;
        Ok(slice)
    }

    /// Read one length-delimited field and decode it as UTF-8 text. Fails
    /// exactly where the field is malformed, runs past the data, or is not
    /// valid UTF-8.
    pub fn read_string(&mut self) -> (r: Result<String, String>)
        requires
            old(self).wf(),
        ensures
            final(self).wf(),
            final(self).data@ == old(self).data@,
            match r {
                Ok(s) => {
                    let e = varint_end(old(self).data@, old(self).pos as int, 10);
                    let l = varint_value(old(self).data@, old(self).pos as int)
                        % 0x1_0000_0000_0000_0000;
                    &&& e >= 0
                    &&& l <= old(self).data@.len() - e
                    &&& final(self).pos == e + l
                    &&& valid_utf8(old(self).data@.subrange(e, e + l))
                    &&& encode_utf8(s@) == old(self).data@.subrange(e, e + l)
                },
                Err(_) => {
                    let e = varint_end(old(self).data@, old(self).pos as int, 10);
                    let l = varint_value(old(self).data@, old(self).pos as int)
                        % 0x1_0000_0000_0000_0000;
                    e == -1 || l > old(self).data@.len() - e || !valid_utf8(
                        old(self).data@.subrange(e, e + l),
                    )
                },
            },
    {
        let bytes = match self.read_bytes() {
            Ok(b) => b,
            Err(m) => {
                return Err(m);
            },
        };
        match utf8_to_string(bytes) {
            Some(s) => Ok(s),
            None => Err("Invalid UTF-8".to_owned()),
        }
    }

    /// Skip one field of the given wire type: a varint, an eight- or
    /// four-byte scalar, or a length-delimited field; anything else is
    /// malformed. Scalar skips clamp at the end of the data.
    pub fn skip_field(&mut self, wire_type: u32) -> (r: Result<(), String>)
        requires
            old(self).wf(),
        ensures
            final(self).wf(),
            final(self).data@ == old(self).data@,
            match r {
                Ok(_) => {
                    let e = varint_end(old(self).data@, old(self).pos as int, 10);
                    let l = varint_value(old(self).data@, old(self).pos as int)
                        % 0x1_0000_0000_0000_0000;
                    &&& (wire_type == 0 || wire_type == 1 || wire_type == 2 || wire_type == 5)
                    &&& (wire_type == 0 ==> e >= 0 && final(self).pos == e)
                    &&& (wire_type == 1 ==> final(self).pos as int == (if old(self).pos + 8
                        <= old(self).data@.len() {
                        old(self).pos + 8int
                    } else {
                        old(self).data@.len() as int
                    }))
                    &&& (wire_type == 5 ==> final(self).pos as int == (if old(self).pos + 4
                        <= old(self).data@.len() {
                        old(self).pos + 4int
                    } else {
                        old(self).data@.len() as int
                    }))
                    &&& (wire_type == 2 ==> e >= 0 && l <= old(self).data@.len() - e
                        && final(self).pos == e + l)
                },
                Err(_) => {
                    let e = varint_end(old(self).data@, old(self).pos as int, 10);
                    let l = varint_value(old(self).data@, old(self).pos as int)
                        % 0x1_0000_0000_0000_0000;
                    ||| (wire_type == 0 && e == -1)
                    ||| (wire_type == 2 && (e == -1 || l > old(self).data@.len() - e))
                    ||| (wire_type != 0 && wire_type != 1 && wire_type != 2 && wire_type != 5)
                },
            },
    {
        match wire_type {
            0 => {
                match self.read_varint() {
                    Ok(_) => Ok(()),
                    Err(m) => Err(m),
                }
            },
            1 => {
                if self.data.len() - self.pos < 8 {
                    self.pos = self.data.len();
                } else {
                    self.pos = self.pos + 8;
                }
                Ok(())
            },
            2 => {
                match self.read_bytes() {
                    Ok(_) => Ok(()),
                    Err(m) => Err(m),
                }
            },
            5 => {
                if self.data.len() - self.pos < 4 {
                    self.pos = self.data.len();
                } else {
                    self.pos = self.pos + 4;
                }
                Ok(())
            },
            _ => Err("Unknown wire type".to_owned()),
        }
    }
}

/// Powers of 128.
pub open spec fn pow128(e: int) -> int
    decreases e,
{
    if e <= 0 {
        1
    } else {
        128 * pow128(e - 1)
    }
}

pub proof fn lemma_pow128_pos(e: int)
    ensures
        pow128(e) >= 1,
    decreases e,
{
    if e > 0 {
        lemma_pow128_pos(e - 1);
    }
}

pub proof fn lemma_pow128_bounds(e: int)
    requires
        0 <= e <= 10,
    ensures
        1 <= pow128(e) <= 0x40_0000_0000_0000_0000,
        e > 0 ==> pow128(e) == 128 * pow128(e - 1),
    decreases 10 - e,
{
    lemma_pow128_pos(e);
    if e == 10 {
        assert(pow128(10) == 0x40_0000_0000_0000_0000) by {
            reveal_with_fuel(pow128, 12);
        };
    } else {
        lemma_pow128_bounds(e + 1);
        assert(pow128(e + 1) == 128 * pow128(e));
    }
}

pub proof fn lemma_varint_value_nonneg(data: Seq<u8>, pos: int)
    ensures
        varint_value(data, pos) >= 0,
    decreases data.len() - pos,
{
    if 0 <= pos < data.len() && data[pos] >= 128 {
        lemma_varint_value_nonneg(data, pos + 1);
    }
}

/// The bytes between two positions of a slice.
fn slice_range<'a>(data: &'a [u8], from: usize, to: usize) -> (r: &'a [u8])
    requires
        from <= to <= data@.len(),
    ensures
        r@ == data@.subrange(from as int, to as int),
{
    &data[from..to]
}

/// Relies on `String::from_utf8`: succeeds exactly on valid UTF-8, giving
/// the string whose encoding is the input.
#[verifier::external_body]
fn utf8_to_string(bytes: &[u8]) -> (r: Option<String>)
    ensures
        match r {
            Some(s) => valid_utf8(bytes@) && encode_utf8(s@) == bytes@,
            None => !valid_utf8(bytes@),
        },
{
    String::from_utf8(bytes.to_vec()).ok()
}

/// Append a value's varint encoding.
pub fn encode_varint(value: u64, buf: &mut Vec<u8>)
    ensures
        final(buf)@ == old(buf)@ + varint_bytes(value as int),
{
    let mut v = value;
    loop
        invariant
            old(buf)@ + varint_bytes(value as int) == buf@ + varint_bytes(v as int),
        decreases v,
    {
        if v < 128 {
            buf.push(v as u8);
            proof {
                assert(old(buf)@ + varint_bytes(value as int) =~= buf@);
            }
            return ;
        }
        let ghost prev = buf@;
        buf.push((v % 128 + 128) as u8);
        proof {
            assert(buf@ =~= prev.push((v as int % 128 + 128) as u8));
            assert(prev + varint_bytes(v as int) =~= buf@ + varint_bytes(v as int / 128));
        }
        v = v / 128;
    }
}

/// Append a field tag: the field number shifted up by three bits, plus the
/// wire type.
pub fn encode_tag(field_number: u32, wire_type: u32, buf: &mut Vec<u8>)
    requires
        wire_type < 8,
    ensures
        final(buf)@ == old(buf)@ + varint_bytes(field_number as int * 8 + wire_type as int),
{
    let value: u64 = (field_number as u64) * 8 + (wire_type as u64);
    encode_varint(value, buf);
}

/// Append a length-delimited string field; an empty value appends nothing.
pub fn encode_string_field(field_number: u32, value: &str, buf: &mut Vec<u8>)
    ensures
        final(buf)@ == (if value@.len() == 0 {
            old(buf)@
        } else {
            old(buf)@ + varint_bytes(field_number as int * 8 + 2) + varint_bytes(
                value.spec_bytes().len() as int,
            ) + value.spec_bytes()
        }),
{
    if value.is_empty() {
        return ;
    }
    encode_tag(field_number, 2, buf);
    let bytes = value.as_bytes();
    encode_varint(bytes.len() as u64, buf);
    let ghost prev = buf@;
    buf.extend_from_slice(bytes);
    proof {
        assert(buf@ =~= prev + value.spec_bytes());
        assert(final(buf)@ =~= old(buf)@ + varint_bytes(field_number as int * 8 + 2)
            + varint_bytes(value.spec_bytes().len() as int) + value.spec_bytes());
    }
}

/// The reflection request that lists a server's services: field seven, the
/// `list_services` string, encoded even though empty to pick the oneof.
pub fn encode_list_services_request() -> (r: Vec<u8>)
    ensures
        r@ == seq![58u8, 0u8],
{
    let mut buf: Vec<u8> = Vec::new();
    encode_tag(7, 2, &mut buf);
    encode_varint(0, &mut buf);
    proof {
        assert(varint_bytes(58) =~= seq![58u8]);
        assert(varint_bytes(0) =~= seq![0u8]);
        assert(buf@ =~= seq![58u8, 0u8]);
    }
    buf
}

/// The reflection request that asks for the files defining a symbol:
/// field four, the `file_containing_symbol` string.
pub fn encode_file_containing_symbol_request(symbol: &str) -> (r: Vec<u8>)
    ensures
        r@ == (if symbol@.len() == 0 {
            Seq::<u8>::empty()
        } else {
            varint_bytes(34) + varint_bytes(symbol.spec_bytes().len() as int)
                + symbol.spec_bytes()
        }),
{
    let mut buf: Vec<u8> = Vec::new();
    encode_string_field(4, symbol, &mut buf);
    proof {
        if symbol@.len() == 0 {
            assert(buf@ =~= Seq::<u8>::empty());
        } else {
            assert(buf@ =~= varint_bytes(34) + varint_bytes(symbol.spec_bytes().len() as int)
                + symbol.spec_bytes());
        }
    }
    buf
}

/// The tag's field number at `pos`.
pub open spec fn tag_field(data: Seq<u8>, pos: int) -> int {
    varint_value(data, pos) % 0x1_0000_0000_0000_0000 / 8 % 0x1_0000_0000
}

/// The tag's wire type at `pos`.
pub open spec fn tag_wire(data: Seq<u8>, pos: int) -> int {
    varint_value(data, pos) % 8
}

/// The position just past the whole field whose tag starts at `pos` (tag
/// plus payload), or -1 where the field is malformed; scalar payloads
/// clamp at the end of the data.
pub open spec fn field_skip_end(data: Seq<u8>, pos: int) -> int {
    let e = varint_end(data, pos, 10);
    if e < 0 {
        -1
    } else {
        let w = tag_wire(data, pos);
        if w == 0 {
            varint_end(data, e, 10)
        } else if w == 1 {
            if e + 8 <= data.len() {
                e + 8
            } else {
                data.len() as int
            }
        } else if w == 5 {
            if e + 4 <= data.len() {
                e + 4
            } else {
                data.len() as int
            }
        } else if w == 2 {
            let le = varint_end(data, e, 10);
            if le < 0 {
                -1
            } else {
                let l = varint_value(data, e) % 0x1_0000_0000_0000_0000;
                if le + l > data.len() {
                    -1
                } else {
                    le + l
                }
            }
        } else {
            -1
        }
    }
}

/// A field, where well-formed, ends strictly past its own start.
pub proof fn lemma_field_skip_end_advances(data: Seq<u8>, pos: int)
    requires
        0 <= pos,
    ensures
        field_skip_end(data, pos) == -1 || pos < field_skip_end(data, pos) <= data.len(),
{
    lemma_varint_end_bounds(data, pos, 10);
    let e = varint_end(data, pos, 10);
    if e >= 0 {
        lemma_varint_end_bounds(data, e, 10);
        lemma_varint_value_nonneg(data, e);
        lemma_varint_value_nonneg(data, pos);
    }
}

/// The payloads of the length-delimited fields numbered `want`, walking a
/// message from `pos`; `None` where the message is malformed.
pub open spec fn ld_payloads(data: Seq<u8>, pos: int, want: int) -> Option<Seq<Seq<u8>>>
    decreases data.len() - pos
        when 0 <= pos <= data.len()
        via ld_payloads_decreases
{
    if pos >= data.len() {
        Some(Seq::empty())
    } else {
        let nxt = field_skip_end(data, pos);
        if nxt < 0 {
            None
        } else if tag_field(data, pos) == want && tag_wire(data, pos) == 2 {
            let e = varint_end(data, pos, 10);
            let le = varint_end(data, e, 10);
            match ld_payloads(data, nxt, want) {
                Some(rest) => Some(seq![data.subrange(le, nxt)] + rest),
                None => None,
            }
        } else {
            ld_payloads(data, nxt, want)
        }
    }
}

#[via_fn]
proof fn ld_payloads_decreases(data: Seq<u8>, pos: int, want: int) {
    lemma_field_skip_end_advances(data, pos);
}

/// What walking a reflection response finds first: the wanted payload,
/// the error-response payload (field seven), a malformed field, or
/// neither field.
pub ghost enum ReflectionOutcome {
    Found(Seq<u8>),
    ErrorBranch(Seq<u8>),
    Malformed,
    Missing,
}

/// The first field of a reflection response that decides its outcome.
pub open spec fn find_response_payload(data: Seq<u8>, pos: int, want: int) -> ReflectionOutcome
    decreases data.len() - pos
        when 0 <= pos <= data.len()
        via find_response_payload_decreases
{
    if pos >= data.len() {
        ReflectionOutcome::Missing
    } else {
        let nxt = field_skip_end(data, pos);
        if nxt < 0 {
            ReflectionOutcome::Malformed
        } else if (tag_field(data, pos) == want || tag_field(data, pos) == 7) && tag_wire(
            data,
            pos,
        ) == 2 {
            let e = varint_end(data, pos, 10);
            let le = varint_end(data, e, 10);
            if tag_field(data, pos) == want {
                ReflectionOutcome::Found(data.subrange(le, nxt))
            } else {
                ReflectionOutcome::ErrorBranch(data.subrange(le, nxt))
            }
        } else {
            find_response_payload(data, nxt, want)
        }
    }
}

#[via_fn]
proof fn find_response_payload_decreases(data: Seq<u8>, pos: int, want: int) {
    lemma_field_skip_end_advances(data, pos);
}

/// The name payloads of a list of service entries: field one of each,
/// concatenated; `None` where any entry is malformed.
pub open spec fn flat_name_payloads(msgs: Seq<Seq<u8>>) -> Option<Seq<Seq<u8>>>
    decreases msgs.len(),
{
    if msgs.len() == 0 {
        Some(Seq::empty())
    } else {
        match (ld_payloads(msgs[0], 0, 1), flat_name_payloads(msgs.drop_first())) {
            (Some(a), Some(b)) => Some(a + b),
            _ => None,
        }
    }
}

/// The collected vectors hold exactly the given payloads.
pub open spec fn payloads_match(ds: Seq<Vec<u8>>, p: Seq<u8>, want: int) -> bool {
    match ld_payloads(p, 0, want) {
        Some(ps) => ds.len() == ps.len() && (forall|i: int|
            0 <= i < ds.len() ==> (#[trigger] ds[i])@ == ps[i]),
        None => false,
    }
}

/// The decoded names are exactly the UTF-8 readings of the message's name
/// payloads.
pub open spec fn names_match(names: Seq<String>, p: Seq<u8>) -> bool {
    match ld_payloads(p, 0, 1) {
        Some(msgs) => match flat_name_payloads(msgs) {
            Some(bss) => names.len() == bss.len() && (forall|i: int|
                0 <= i < names.len() ==> valid_utf8(#[trigger] bss[i]) && encode_utf8(
                    names[i]@,
                ) == bss[i]),
            None => false,
        },
        None => false,
    }
}

/// Why reading the names of a message can fail: a malformed entry, or a
/// name that is not valid UTF-8.
pub open spec fn names_unreadable(p: Seq<u8>) -> bool {
    match ld_payloads(p, 0, 1) {
        Some(msgs) => match flat_name_payloads(msgs) {
            Some(bss) => exists|i: int| 0 <= i < bss.len() && !valid_utf8(#[trigger] bss[i]),
            None => true,
        },
        None => true,
    }
}

/// Collect the payloads of every length-delimited field numbered `want`;
/// succeeds exactly on a well-formed message.
fn ld_fields(data: &[u8], want: u32) -> (r: Result<Vec<Vec<u8>>, String>)
    ensures
        match r {
            Ok(ds) => payloads_match(ds@, data@, want as int),
            Err(_) => ld_payloads(data@, 0, want as int) is None,
        },
{
    let mut reader = ProtoReader::new(data);
    let mut out: Vec<Vec<u8>> = Vec::new();
    let ghost mut done: Seq<Seq<u8>> = Seq::empty();
    proof {
        assert(done + ld_payloads(data@, 0, want as int)->0 =~= ld_payloads(
            data@,
            0,
            want as int,
        )->0);
    }
    loop
        invariant
            reader.wf(),
            reader.data@ == data@,
            out@.len() == done.len(),
            forall|i: int| 0 <= i < done.len() ==> (#[trigger] out@[i])@ == done[i],
            ld_payloads(data@, 0, want as int) == (match ld_payloads(
                data@,
                reader.pos as int,
                want as int,
            ) {
                Some(rest) => Some(done + rest),
                None => None::<Seq<Seq<u8>>>,
            }),
        decreases data@.len() - reader.pos,
    {
        let ghost pos0 = reader.pos as int;
        if !reader.remaining() {
            proof {
                assert(ld_payloads(data@, pos0, want as int) == Some(Seq::<Seq<u8>>::empty()));
                assert(done + Seq::<Seq<u8>>::empty() =~= done);
            }
            return Ok(out);
        }
        let (field, wire) = match reader.read_tag() {
            Ok(t) => t,
            Err(m) => {
                proof {
                    assert(field_skip_end(data@, pos0) == -1);
                    assert(ld_payloads(data@, pos0, want as int) is None);
                }
                return Err(m);
            },
        };
        proof {
            assert(field as int == tag_field(data@, pos0));
            assert(wire as int == tag_wire(data@, pos0));
        }
        if field == want && wire == 2 {
            let payload = match reader.read_bytes() {
                Ok(p) => p,
                Err(m) => {
                    proof {
                        assert(field_skip_end(data@, pos0) == -1);
                        assert(ld_payloads(data@, pos0, want as int) is None);
                    }
                    return Err(m);
                },
            };
            let ghost olddone = done;
            out.push(vstd::slice::slice_to_vec(payload));
            proof {
                let nxt = field_skip_end(data@, pos0);
                assert(nxt == reader.pos as int);
                let e = varint_end(data@, pos0, 10);
                let le = varint_end(data@, e, 10);
                assert(payload@ == data@.subrange(le, nxt));
                done = olddone.push(payload@);
                assert(forall|i: int| 0 <= i < olddone.len() ==> out@[i]@ == olddone[i]);
                assert(out@[out@.len() - 1]@ == payload@);
                match ld_payloads(data@, nxt, want as int) {
                    Some(rest) => {
                        assert(ld_payloads(data@, pos0, want as int) == Some(
                            seq![data@.subrange(le, nxt)] + rest,
                        ));
                        assert(olddone + (seq![data@.subrange(le, nxt)] + rest) =~= done + rest);
                    },
                    None => {
                        assert(ld_payloads(data@, pos0, want as int) is None);
                    },
                }
            }
        } else {
            match reader.skip_field(wire) {
                Ok(_) => {
                    proof {
                        assert(reader.pos as int == field_skip_end(data@, pos0));
                        assert(ld_payloads(data@, pos0, want as int) == ld_payloads(
                            data@,
                            reader.pos as int,
                            want as int,
                        ));
                    }
                },
                Err(m) => {
                    proof {
                        assert(field_skip_end(data@, pos0) == -1);
                        assert(ld_payloads(data@, pos0, want as int) is None);
                    }
                    return Err(m);
                },
            }
        }
        proof {
            lemma_field_skip_end_advances(data@, pos0);
        }
    }
}

/// Parse a FileDescriptorResponse: the raw file descriptor payloads, its
/// repeated field one. Succeeds exactly on a well-formed message.
pub fn parse_file_descriptor_response(data: &[u8]) -> (r: Result<Vec<Vec<u8>>, String>)
    ensures
        match r {
            Ok(ds) => payloads_match(ds@, data@, 1),
            Err(_) => ld_payloads(data@, 0, 1) is None,
        },
{
    ld_fields(data, 1)
}

/// Parse a ListServiceResponse: the service names stand in field one of
/// each service entry, which is itself field one of the message; each name
/// must be valid UTF-8. Succeeds exactly on a well-formed message with
/// readable names.
pub fn parse_list_service_response(data: &[u8]) -> (r: Result<Vec<String>, String>)
    ensures
        match r {
            Ok(names) => names_match(names@, data@),
            Err(_) => names_unreadable(data@),
        },
{
    let msgs = match ld_fields(data, 1) {
        Ok(m) => m,
        Err(e) => {
            return Err(e);
        },
    };
    let ghost mviews = Seq::new(msgs@.len(), |i: int| msgs@[i]@);
    let mut names: Vec<String> = Vec::new();
    let ghost mut bss_done: Seq<Seq<u8>> = Seq::empty();
    let mn = msgs.len();
    let mut j: usize = 0;
    proof {
        assert(mviews.subrange(0, mn as int) =~= mviews);
        assert(mviews.subrange(j as int, mn as int) =~= mviews);
        match flat_name_payloads(mviews) {
            Some(all) => {
                assert(bss_done + all =~= all);
            },
            None => {},
        }
    }
    while j < mn
        invariant
            0 <= j <= mn,
            mn == msgs@.len(),
            mviews == Seq::new(msgs@.len(), |i: int| msgs@[i]@),
            ld_payloads(data@, 0, 1) == Some(mviews),
            names@.len() == bss_done.len(),
            forall|i: int|
                0 <= i < names@.len() ==> valid_utf8(#[trigger] bss_done[i]) && encode_utf8(
                    names@[i]@,
                ) == bss_done[i],
            flat_name_payloads(mviews) == (match flat_name_payloads(
                mviews.subrange(j as int, mn as int),
            ) {
                Some(rest) => Some(bss_done + rest),
                None => None::<Seq<Seq<u8>>>,
            }),
        decreases mn - j,
    {
        let ghost sufj = mviews.subrange(j as int, mn as int);
        proof {
            assert(sufj[0] == mviews[j as int]);
            assert(sufj.drop_first() =~= mviews.subrange(j as int + 1, mn as int));
            assert(mviews[j as int] == msgs@[j as int]@);
        }
        let part = match ld_fields(msgs[j].as_slice(), 1) {
            Ok(p) => p,
            Err(e) => {
                proof {
                    assert(ld_payloads(mviews[j as int], 0, 1) is None);
                    assert(flat_name_payloads(sufj) is None);
                    assert(names_unreadable(data@));
                }
                return Err(e);
            },
        };
        let ghost a = ld_payloads(mviews[j as int], 0, 1)->0;
        let pn = part.len();
        let mut k: usize = 0;
        proof {
            assert(part@.len() == a.len());
        }
        while k < pn
            invariant
                0 <= k <= pn,
                pn == part@.len(),
                mn == msgs@.len(),
                j < mn,
                mviews == Seq::new(msgs@.len(), |i: int| msgs@[i]@),
                ld_payloads(data@, 0, 1) == Some(mviews),
                a == ld_payloads(mviews[j as int], 0, 1)->0,
                ld_payloads(mviews[j as int], 0, 1) is Some,
                part@.len() == a.len(),
                forall|i: int| 0 <= i < part@.len() ==> (#[trigger] part@[i])@ == a[i],
                names@.len() == bss_done.len() + k,
                forall|i: int|
                    0 <= i < bss_done.len() ==> valid_utf8(#[trigger] bss_done[i]) && encode_utf8(
                        names@[i]@,
                    ) == bss_done[i],
                forall|i: int|
                    0 <= i < k ==> valid_utf8(#[trigger] a[i]) && encode_utf8(
                        names@[bss_done.len() + i]@,
                    ) == a[i],
                flat_name_payloads(mviews) == (match flat_name_payloads(
                    mviews.subrange(j as int, mn as int),
                ) {
                    Some(rest) => Some(bss_done + rest),
                    None => None::<Seq<Seq<u8>>>,
                }),
            decreases pn - k,
        {
            let name = match utf8_to_string(part[k].as_slice()) {
                Some(s) => s,
                None => {
                    proof {
                        let sufj2 = mviews.subrange(j as int, mn as int);
                        assert(sufj2[0] == mviews[j as int]);
                        assert(sufj2.drop_first() =~= mviews.subrange(j as int + 1, mn as int));
                        assert(!valid_utf8(a[k as int]));
                        match flat_name_payloads(mviews) {
                            Some(all) => {
                                let restj = flat_name_payloads(sufj2)->0;
                                let restj1 = flat_name_payloads(sufj2.drop_first())->0;
                                assert(restj == a + restj1);
                                assert(all == bss_done + restj);
                                assert(all[bss_done.len() + k] == a[k as int]);
                                assert(names_unreadable(data@));
                            },
                            None => {
                                assert(names_unreadable(data@));
                            },
                        }
                    }
                    return Err("Invalid UTF-8".to_owned());
                },
            };
            names.push(name);
            k += 1;
        }
        proof {
            let sufj2 = mviews.subrange(j as int, mn as int);
            assert(sufj2[0] == mviews[j as int]);
            assert(sufj2.drop_first() =~= mviews.subrange(j as int + 1, mn as int));
            let olddone = bss_done;
            bss_done = bss_done + a;
            assert(names@.len() == bss_done.len());
            assert forall|i: int|
                0 <= i < names@.len() implies valid_utf8(#[trigger] bss_done[i]) && encode_utf8(
                names@[i]@,
            ) == bss_done[i] by {
                if i < olddone.len() {
                    assert(bss_done[i] == olddone[i]);
                } else {
                    assert(bss_done[i] == a[i - olddone.len()]);
                }
            };
            match flat_name_payloads(sufj2.drop_first()) {
                Some(b) => {
                    assert(flat_name_payloads(sufj2) == Some(a + b));
                    assert(olddone + (a + b) =~= bss_done + b);
                },
                None => {
                    assert(flat_name_payloads(sufj2) is None);
                },
            }
        }
        j += 1;
    }
    proof {
        assert(mviews.subrange(mn as int, mn as int) =~= Seq::<Seq<u8>>::empty());
        assert(flat_name_payloads(Seq::<Seq<u8>>::empty()) == Some(Seq::<Seq<u8>>::empty()));
        assert(bss_done + Seq::<Seq<u8>>::empty() =~= bss_done);
        assert(flat_name_payloads(mviews) == Some(bss_done));
        assert(names_match(names@, data@));
    }
    Ok(names)
}

/// Walk a ServerReflectionResponse: hand the first field with the wanted
/// number to the caller, report the server's error response (field seven),
/// and fail on malformed input or when neither field is present.
fn find_reflection_payload<'b>(
    data: &'b [u8],
    want: u32,
) -> (r: Result<Result<&'b [u8], &'b [u8]>, bool>)
    requires
        2 <= want < 7,
    ensures
        match r {
            Ok(inner) => match inner {
                Ok(p) => find_response_payload(data@, 0, want as int)
                    == ReflectionOutcome::Found(p@),
                Err(p) => find_response_payload(data@, 0, want as int)
                    == ReflectionOutcome::ErrorBranch(p@),
            },
            Err(missing) => {
                &&& (missing ==> find_response_payload(data@, 0, want as int)
                    == ReflectionOutcome::Missing)
                &&& (!missing ==> find_response_payload(data@, 0, want as int)
                    == ReflectionOutcome::Malformed)
            },
        },
{
    let mut reader = ProtoReader::new(data);
    loop
        invariant
            reader.wf(),
            reader.data@ == data@,
            2 <= want < 7,
            find_response_payload(data@, 0, want as int) == find_response_payload(
                data@,
                reader.pos as int,
                want as int,
            ),
        decreases data@.len() - reader.pos,
    {
        let ghost pos0 = reader.pos as int;
        if !reader.remaining() {
            return Err(true);
        }
        let (field, wire) = match reader.read_tag() {
            Ok(t) => t,
            Err(_) => {
                proof {
                    assert(field_skip_end(data@, pos0) == -1);
                }
                return Err(false);
            },
        };
        proof {
            assert(field as int == tag_field(data@, pos0));
            assert(wire as int == tag_wire(data@, pos0));
        }
        if (field == want || field == 7) && wire == 2 {
            let payload = match reader.read_bytes() {
                Ok(p) => p,
                Err(_) => {
                    proof {
                        assert(field_skip_end(data@, pos0) == -1);
                    }
                    return Err(false);
                },
            };
            proof {
                let nxt = field_skip_end(data@, pos0);
                assert(nxt == reader.pos as int);
                let e = varint_end(data@, pos0, 10);
                let le = varint_end(data@, e, 10);
                assert(payload@ == data@.subrange(le, nxt));
            }
            if field == want {
                return Ok(Ok(payload));
            }
            return Ok(Err(payload));
        }
        match reader.skip_field(wire) {
            Ok(_) => {
                proof {
                    assert(reader.pos as int == field_skip_end(data@, pos0));
                }
            },
            Err(_) => {
                proof {
                    assert(field_skip_end(data@, pos0) == -1);
                }
                return Err(false);
            },
        }
        proof {
            lemma_field_skip_end_advances(data@, pos0);
        }
    }
}

/// Report a server's reflection error: its message is the last text field
/// of the error response, prefixed for the caller.
fn reflection_error(payload: &[u8]) -> (r: String) {
    let parts = match ld_fields(payload, 2) {
        Ok(p) => p,
        Err(m) => {
            return m;
        },
    };
    let mut message = String::new();
    if parts.len() > 0 {
        match utf8_to_string(parts[parts.len() - 1].as_slice()) {
            Some(s) => {
                message = s;
            },
            None => {
                return "Invalid UTF-8".to_owned();
            },
        }
    }
    let mut out = "Reflection error: ".to_owned();
    out.append(message.as_str());
    out
}

/// Parse service names from a ServerReflectionResponse: the names stand
/// under its field six; a server-reported error (field seven) or a missing
/// response is a failure.
pub fn parse_list_services_response(data: &[u8]) -> (r: Result<Vec<String>, String>)
    ensures
        match find_response_payload(data@, 0, 6) {
            ReflectionOutcome::Found(p) => match r {
                Ok(names) => names_match(names@, p),
                Err(_) => names_unreadable(p),
            },
            ReflectionOutcome::ErrorBranch(_) => r is Err,
            ReflectionOutcome::Malformed => r is Err,
            ReflectionOutcome::Missing => r matches Err(m) && m@
                == "No list_services_response found in reflection response"@,
        },
{
    match find_reflection_payload(data, 6) {
        Ok(Ok(payload)) => parse_list_service_response(payload),
        Ok(Err(error_payload)) => Err(reflection_error(error_payload)),
        Err(true) => Err("No list_services_response found in reflection response".to_owned()),
        Err(false) => Err("Malformed reflection response".to_owned()),
    }
}

/// Parse file descriptors from a ServerReflectionResponse: the descriptor
/// payloads stand under its field four; a server-reported error (field
/// seven) or a missing response is a failure.
pub fn parse_file_descriptor_response_msg(data: &[u8]) -> (r: Result<Vec<Vec<u8>>, String>)
    ensures
        match find_response_payload(data@, 0, 4) {
            ReflectionOutcome::Found(p) => match r {
                Ok(ds) => payloads_match(ds@, p, 1),
                Err(_) => ld_payloads(p, 0, 1) is None,
            },
            ReflectionOutcome::ErrorBranch(_) => r is Err,
            ReflectionOutcome::Malformed => r is Err,
            ReflectionOutcome::Missing => r matches Err(m) && m@
                == "No file_descriptor_response found in reflection response"@,
        },
{
    match find_reflection_payload(data, 4) {
        Ok(Ok(payload)) => parse_file_descriptor_response(payload),
        Ok(Err(error_payload)) => Err(reflection_error(error_payload)),
        Err(true) => Err("No file_descriptor_response found in reflection response".to_owned()),
        Err(false) => Err("Malformed reflection response".to_owned()),
    }
}

} // verus!
