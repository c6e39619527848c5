use vstd::prelude::*;
use vstd::string::StringSliceAdditionalSpecFns;
use vstd::utf8::valid_utf8;

use crate::gps::l76k::pcas::models::{
    decimal_digits, is_ascii_bytes, lemma_ascii_bytes_are_utf8, lemma_decimal_digits,
    pcas03_reserved, pcas_tag, str_from_utf8, EncodedCommand, FixedBuf, Pcas03, PcasBaudrate,
    PcasBuildError, PcasGnssMode, PcasRestartMode, PcasSentenceRate,
};

verus! {

/// The uppercase hexadecimal ASCII digit of a nibble.
pub open spec fn hex_digit(n: u8) -> u8 {
    if n < 10 {
        (48 + n) as u8
    } else {
        (55 + n) as u8
    }
}

/// The NMEA checksum: the XOR of all bytes, folded from the left.
pub open spec fn xor_checksum(s: Seq<u8>) -> u8
    decreases s.len(),
{
    if s.len() == 0 {
        0
    } else {
        xor_checksum(s.drop_last()) ^ s.last()
    }
}

/// The checksum of two texts joined is the XOR of their checksums.
pub proof fn lemma_xor_checksum_concat(a: Seq<u8>, b: Seq<u8>)
    ensures
        xor_checksum(a + b) == xor_checksum(a) ^ xor_checksum(b),
    decreases b.len(),
{
    let xa = xor_checksum(a);
    if b.len() == 0 {
        assert(a + b =~= a);
        assert(xa ^ 0u8 == xa) by (bit_vector);
    } else {
        lemma_xor_checksum_concat(a, b.drop_last());
        assert((a + b).drop_last() =~= a + b.drop_last());
        assert((a + b).last() == b.last());
        let xb = xor_checksum(b.drop_last());
        let l = b.last();
        assert((xa ^ xb) ^ l == xa ^ (xb ^ l)) by (bit_vector);
    }
}

/// A text repeated twice has checksum zero.
pub proof fn lemma_xor_checksum_repeat(a: Seq<u8>)
    ensures
        xor_checksum(a + a) == 0,
{
    lemma_xor_checksum_concat(a, a);
    let xa = xor_checksum(a);
    assert(xa ^ xa == 0u8) by (bit_vector);
}

/// The frame `$<body>*<CS>\r\n`, where `<CS>` is the checksum of the body as
/// two uppercase hexadecimal digits.
pub open spec fn pcas_frame(body: Seq<u8>) -> Seq<u8> {
    seq![36u8] + body + seq![
        42u8,
        hex_digit(xor_checksum(body) >> 4u8),
        hex_digit(xor_checksum(body) & 15u8),
        13u8,
        10u8,
    ]
}

/// The value of an uppercase hexadecimal ASCII digit.
pub open spec fn hex_digit_value(c: u8) -> u8 {
    if 48 <= c <= 57 {
        (c - 48) as u8
    } else {
        (c - 55) as u8
    }
}

/// True when `c` is one of `0`-`9`, `A`-`F`.
pub open spec fn is_upper_hex_digit(c: u8) -> bool {
    (48 <= c <= 57) || (65 <= c <= 70)
}

/// True when `b` is none of the bytes that delimit an NMEA sentence:
/// `$`, `*`, carriage return and line feed.
pub open spec fn is_payload_byte(b: u8) -> bool {
    b != 36 && b != 42 && b != 13 && b != 10
}

/// What a receiver checks of a sentence: it starts with `$`, ends with `\r\n`,
/// its payload holds no delimiter, and the two uppercase hexadecimal digits
/// after the `*` that closes the payload give the XOR of the payload's bytes.
pub open spec fn is_checksummed_sentence(f: Seq<u8>) -> bool {
    let n = f.len() as int;
    let payload = f.subrange(1, n - 5);
    &&& n >= 6
    &&& f[0] == 36
    &&& f[n - 5] == 42
    &&& f[n - 2] == 13
    &&& f[n - 1] == 10
    &&& forall|i: int| 0 <= i < payload.len() ==> is_payload_byte(#[trigger] payload[i])
    &&& is_upper_hex_digit(f[n - 4])
    &&& is_upper_hex_digit(f[n - 3])
    &&& hex_digit_value(f[n - 4]) * 16 + hex_digit_value(f[n - 3]) == xor_checksum(payload)
}

/// `s` followed by zero bytes up to length `n`.
pub open spec fn zero_padded(s: Seq<u8>, n: nat) -> Seq<u8> {
    s + Seq::new((n - s.len()) as nat, |i: int| 0u8)
}

/// Supported outbound PCAS commands.
pub enum PcasCommand {
    Pcas01SetBaudrate(PcasBaudrate),
    Pcas02SetUpdateRateMs(u16),
    Pcas03SetSentenceRates(Pcas03),
    Pcas04SetGnss(PcasGnssMode),
    Pcas10Restart(PcasRestartMode),
}

impl PcasCommand {
    /// The payload between `$` and `*`: the command name, a comma and the
    /// arguments in decimal.
    pub open spec fn body(self) -> Seq<u8> {
        match self {
            PcasCommand::Pcas01SetBaudrate(baud) => pcas_tag(48, 49) + decimal_digits(
                baud.spec_code() as nat,
            ),
            PcasCommand::Pcas02SetUpdateRateMs(interval_ms) => pcas_tag(48, 50) + decimal_digits(
                interval_ms as nat,
            ),
            PcasCommand::Pcas03SetSentenceRates(cfg) => cfg.command_bytes(),
            PcasCommand::Pcas04SetGnss(mode) => pcas_tag(48, 52) + decimal_digits(
                mode.spec_code() as nat,
            ),
            PcasCommand::Pcas10Restart(mode) => pcas_tag(49, 48) + decimal_digits(
                mode.spec_code() as nat,
            ),
        }
    }

    /// The length of the command's frame: six framing bytes, seven for the
    /// command name, and the arguments (a PCAS03 frame has one digit per
    /// entry that sets a rate, eight commas and the nine reserved bytes).
    pub open spec fn frame_len(self) -> nat {
        match self {
            PcasCommand::Pcas01SetBaudrate(_) => 14,
            PcasCommand::Pcas02SetUpdateRateMs(interval_ms) => 13 + decimal_digits(
                interval_ms as nat,
            ).len(),
            PcasCommand::Pcas03SetSentenceRates(cfg) => 30 + cfg.set_count(),
            PcasCommand::Pcas04SetGnss(_) => 14,
            PcasCommand::Pcas10Restart(_) => 14,
        }
    }

    /// Encodes a typed command into a full `$...*CS\r\n` frame.
    pub fn encode<const N: usize>(&self) -> (r: Result<EncodedCommand<N>, PcasBuildError>)
        ensures
            pcas_frame(self.body()).len() <= N ==> (r matches Ok(c) && c.len == pcas_frame(
                self.body(),
            ).len() && c.buf@ == zero_padded(pcas_frame(self.body()), N as nat)),
            pcas_frame(self.body()).len() > N ==> r == Err::<EncodedCommand<N>, PcasBuildError>(
                PcasBuildError::BufferTooSmall,
            ),
            pcas_frame(self.body()).len() == self.frame_len(),
            self matches PcasCommand::Pcas03SetSentenceRates(cfg) ==> cfg.rates_in_range(),
    {
        let mut body_buf = [0u8; 96];
        let mut w = FixedBuf::new(&mut body_buf);
        assert(w.written() =~= Seq::<u8>::empty());

        match *self {
            PcasCommand::Pcas01SetBaudrate(baud) => {
                proof {
                    lemma_decimal_digits(baud.spec_code() as nat);
                }
                write_tagged_number(&mut w, 48, 49, baud.code() as u16)?;
            },
            PcasCommand::Pcas02SetUpdateRateMs(interval_ms) => {
                proof {
                    lemma_decimal_digits(interval_ms as nat);
                }
                write_tagged_number(&mut w, 48, 50, interval_ms)?;
            },
            PcasCommand::Pcas03SetSentenceRates(cfg) => {
                write_sentence_rates(&mut w, &cfg)?;
            },
            PcasCommand::Pcas04SetGnss(mode) => {
                proof {
                    lemma_decimal_digits(mode.spec_code() as nat);
                }
                write_tagged_number(&mut w, 48, 52, mode.code() as u16)?;
            },
            PcasCommand::Pcas10Restart(mode) => {
                proof {
                    lemma_decimal_digits(mode.spec_code() as nat);
                }
                write_tagged_number(&mut w, 49, 48, mode.code() as u16)?;
            },
        }

        proof {
            lemma_frame_len(*self);
            lemma_body_is_ascii(*self);
            lemma_ascii_bytes_are_utf8(self.body());
        }
        let body = match str_from_utf8(w.as_bytes()) {
            Ok(body) => body,
            Err(_) => {
                return Err(PcasBuildError::Fmt);
            },
        };
        encode_pcas::<N>(body)
    }
}

/// The frame of a command is as long as `frame_len` says, given that its
/// sentence rates keep to their range (as every value of the rate type does).
pub proof fn lemma_frame_len(cmd: PcasCommand)
    requires
        cmd matches PcasCommand::Pcas03SetSentenceRates(cfg) ==> cfg.rates_in_range(),
    ensures
        pcas_frame(cmd.body()).len() == cmd.frame_len(),
{
    match cmd {
        PcasCommand::Pcas01SetBaudrate(baud) => {
            lemma_decimal_digits(baud.spec_code() as nat);
        },
        PcasCommand::Pcas02SetUpdateRateMs(_) => {},
        PcasCommand::Pcas03SetSentenceRates(cfg) => {
            lemma_entry_len(cfg.gga);
            lemma_entry_len(cfg.gll);
            lemma_entry_len(cfg.gsa);
            lemma_entry_len(cfg.gsv);
            lemma_entry_len(cfg.rmc);
            lemma_entry_len(cfg.vtg);
            lemma_entry_len(cfg.zda);
            lemma_entry_len(cfg.ant);
        },
        PcasCommand::Pcas04SetGnss(mode) => {
            lemma_decimal_digits(mode.spec_code() as nat);
        },
        PcasCommand::Pcas10Restart(mode) => {
            lemma_decimal_digits(mode.spec_code() as nat);
        },
    }
}

/// An entry within range is one digit when it sets a rate and empty when it
/// keeps the current one; its comma follows.
proof fn lemma_entry_len(rate: PcasSentenceRate)
    requires
        rate.in_range(),
    ensures
        rate.entry_bytes().len() == 1 + rate.set_count(),
{
    if let Some(n) = rate.rate() {
        lemma_decimal_digits(n as nat);
    }
}

/// Every encoded command is a sentence that a receiver accepts: it carries
/// the command's payload, and its checksum digits agree with that payload.
pub proof fn lemma_encoded_command_is_checksummed(cmd: PcasCommand)
    ensures
        is_checksummed_sentence(pcas_frame(cmd.body())),
        pcas_frame(cmd.body()).subrange(1, pcas_frame(cmd.body()).len() - 5) == cmd.body(),
{
    lemma_body_has_no_delimiters(cmd);
    lemma_frame_checksum(cmd.body());
}

/// The frame of a payload without delimiters passes the receiver's check, and
/// the payload can be read back from it.
pub proof fn lemma_frame_checksum(body: Seq<u8>)
    requires
        forall|i: int| 0 <= i < body.len() ==> is_payload_byte(#[trigger] body[i]),
    ensures
        is_checksummed_sentence(pcas_frame(body)),
        pcas_frame(body).subrange(1, pcas_frame(body).len() - 5) == body,
{
    let f = pcas_frame(body);
    let n = f.len() as int;
    let cs = xor_checksum(body);
    assert(f.subrange(1, n - 5) =~= body);
    assert(f[n - 4] == hex_digit(cs >> 4u8));
    assert(f[n - 3] == hex_digit(cs & 15u8));
    assert(cs >> 4u8 < 16 && cs & 15u8 < 16 && (cs >> 4u8) * 16 + (cs & 15u8) == cs) by (bit_vector);
}

/// Every encoded frame is ASCII text, so it reads back as a string.
pub proof fn lemma_encoded_command_is_text(cmd: PcasCommand)
    ensures
        is_ascii_bytes(pcas_frame(cmd.body())),
        valid_utf8(pcas_frame(cmd.body())),
{
    let body = cmd.body();
    let cs = xor_checksum(body);
    lemma_body_is_ascii(cmd);
    assert(cs >> 4u8 < 16 && cs & 15u8 < 16) by (bit_vector);
    let tail = seq![42u8, hex_digit(cs >> 4u8), hex_digit(cs & 15u8), 13u8, 10u8];
    assert(is_ascii_bytes(tail)) by {
        assert forall|i: int| 0 <= i < tail.len() implies #[trigger] tail[i] < 128 by {}
    }
    assert(is_ascii_bytes(seq![36u8])) by {
        assert forall|i: int| 0 <= i < 1 implies #[trigger] seq![36u8][i] < 128 by {}
    }
    lemma_ascii_concat(seq![36u8], body);
    lemma_ascii_concat(seq![36u8] + body, tail);
    lemma_ascii_bytes_are_utf8(pcas_frame(body));
}

/// A byte of a command payload: a letter of `PCAS`, a decimal digit or a comma.
pub open spec fn is_pcas_text_byte(b: u8) -> bool {
    b == 80 || b == 67 || b == 65 || b == 83 || b == 44 || (48 <= b <= 57)
}

/// True when every byte is a byte of a command payload.
pub open spec fn is_pcas_text(s: Seq<u8>) -> bool {
    forall|i: int| 0 <= i < s.len() ==> is_pcas_text_byte(#[trigger] s[i])
}

/// A command payload holds only the letters of `PCAS`, digits and commas, so
/// none of the sentence delimiters.
pub proof fn lemma_body_has_no_delimiters(cmd: PcasCommand)
    ensures
        forall|i: int| 0 <= i < cmd.body().len() ==> is_payload_byte(#[trigger] cmd.body()[i]),
{
    lemma_body_is_text(cmd);
    let body = cmd.body();
    assert forall|i: int| 0 <= i < body.len() implies is_payload_byte(#[trigger] body[i]) by {
        assert(is_pcas_text_byte(body[i]));
    }
}

/// Every command payload is ASCII text.
pub proof fn lemma_body_is_ascii(cmd: PcasCommand)
    ensures
        is_ascii_bytes(cmd.body()),
{
    lemma_body_is_text(cmd);
    let body = cmd.body();
    assert forall|i: int| 0 <= i < body.len() implies #[trigger] body[i] < 128 by {
        assert(is_pcas_text_byte(body[i]));
    }
}

/// Every command payload is made of the letters of `PCAS`, digits and commas.
pub proof fn lemma_body_is_text(cmd: PcasCommand)
    ensures
        is_pcas_text(cmd.body()),
{
    match cmd {
        PcasCommand::Pcas01SetBaudrate(baud) => {
            lemma_tag_is_text(48, 49);
            lemma_digits_are_text(baud.spec_code() as nat);
            lemma_text_concat(pcas_tag(48, 49), decimal_digits(baud.spec_code() as nat));
        },
        PcasCommand::Pcas02SetUpdateRateMs(interval_ms) => {
            lemma_tag_is_text(48, 50);
            lemma_digits_are_text(interval_ms as nat);
            lemma_text_concat(pcas_tag(48, 50), decimal_digits(interval_ms as nat));
        },
        PcasCommand::Pcas03SetSentenceRates(cfg) => {
            lemma_pcas03_is_text(cfg);
        },
        PcasCommand::Pcas04SetGnss(mode) => {
            lemma_tag_is_text(48, 52);
            lemma_digits_are_text(mode.spec_code() as nat);
            lemma_text_concat(pcas_tag(48, 52), decimal_digits(mode.spec_code() as nat));
        },
        PcasCommand::Pcas10Restart(mode) => {
            lemma_tag_is_text(49, 48);
            lemma_digits_are_text(mode.spec_code() as nat);
            lemma_text_concat(pcas_tag(49, 48), decimal_digits(mode.spec_code() as nat));
        },
    }
}

/// The concatenation of payload texts is payload text.
proof fn lemma_text_concat(a: Seq<u8>, b: Seq<u8>)
    requires
        is_pcas_text(a),
        is_pcas_text(b),
    ensures
        is_pcas_text(a + b),
{
    assert forall|i: int| 0 <= i < (a + b).len() implies is_pcas_text_byte(#[trigger] (a + b)[i]) by {
        if i < a.len() {
            assert((a + b)[i] == a[i]);
        } else {
            assert((a + b)[i] == b[i - a.len()]);
        }
    }
}

/// The concatenation of ASCII texts is ASCII.
proof fn lemma_ascii_concat(a: Seq<u8>, b: Seq<u8>)
    requires
        is_ascii_bytes(a),
        is_ascii_bytes(b),
    ensures
        is_ascii_bytes(a + b),
{
    assert forall|i: int| 0 <= i < (a + b).len() implies #[trigger] (a + b)[i] < 128 by {
        if i < a.len() {
            assert((a + b)[i] == a[i]);
        } else {
            assert((a + b)[i] == b[i - a.len()]);
        }
    }
}

/// Decimal digits are payload text.
proof fn lemma_digits_are_text(n: nat)
    ensures
        is_pcas_text(decimal_digits(n)),
{
    lemma_decimal_digits(n);
    let d = decimal_digits(n);
    assert forall|i: int| 0 <= i < d.len() implies is_pcas_text_byte(#[trigger] d[i]) by {
        assert(48 <= d[i] <= 57);
    }
}

/// A command name is payload text.
proof fn lemma_tag_is_text(d1: u8, d2: u8)
    requires
        48 <= d1 <= 57,
        48 <= d2 <= 57,
    ensures
        is_pcas_text(pcas_tag(d1, d2)),
{
    let t = pcas_tag(d1, d2);
    assert forall|i: int| 0 <= i < t.len() implies is_pcas_text_byte(#[trigger] t[i]) by {}
}

/// A PCAS03 rate entry is at most three digits.
proof fn lemma_field_is_text(rate: PcasSentenceRate)
    ensures
        is_pcas_text(rate.field_bytes()),
        rate.field_bytes().len() <= 3,
{
    if let Some(n) = rate.rate() {
        lemma_decimal_digits(n as nat);
        lemma_digits_are_text(n as nat);
    }
}

/// A rate entry followed by its comma is payload text of at most four bytes.
proof fn lemma_entry_is_text(rate: PcasSentenceRate)
    ensures
        is_pcas_text(rate.entry_bytes()),
        rate.entry_bytes().len() <= 4,
{
    lemma_field_is_text(rate);
    assert(is_pcas_text(seq![44u8])) by {
        assert forall|i: int| 0 <= i < 1 implies is_pcas_text_byte(#[trigger] seq![44u8][i]) by {}
    }
    lemma_text_concat(rate.field_bytes(), seq![44u8]);
}

/// The PCAS03 payload is payload text.
proof fn lemma_pcas03_is_text(cfg: Pcas03)
    ensures
        is_pcas_text(cfg.command_bytes()),
{
    let t = pcas_tag(48, 51);
    lemma_tag_is_text(48, 51);
    lemma_entry_is_text(cfg.gga);
    lemma_entry_is_text(cfg.gll);
    lemma_entry_is_text(cfg.gsa);
    lemma_entry_is_text(cfg.gsv);
    lemma_entry_is_text(cfg.rmc);
    lemma_entry_is_text(cfg.vtg);
    lemma_entry_is_text(cfg.zda);
    lemma_entry_is_text(cfg.ant);
    let s1 = t + cfg.gga.entry_bytes();
    let s2 = s1 + cfg.gll.entry_bytes();
    let s3 = s2 + cfg.gsa.entry_bytes();
    let s4 = s3 + cfg.gsv.entry_bytes();
    let s5 = s4 + cfg.rmc.entry_bytes();
    let s6 = s5 + cfg.vtg.entry_bytes();
    let s7 = s6 + cfg.zda.entry_bytes();
    let s8 = s7 + cfg.ant.entry_bytes();
    lemma_text_concat(t, cfg.gga.entry_bytes());
    lemma_text_concat(s1, cfg.gll.entry_bytes());
    lemma_text_concat(s2, cfg.gsa.entry_bytes());
    lemma_text_concat(s3, cfg.gsv.entry_bytes());
    lemma_text_concat(s4, cfg.rmc.entry_bytes());
    lemma_text_concat(s5, cfg.vtg.entry_bytes());
    lemma_text_concat(s6, cfg.zda.entry_bytes());
    lemma_text_concat(s7, cfg.ant.entry_bytes());
    let r = pcas03_reserved();
    assert(is_pcas_text(r)) by {
        assert forall|i: int| 0 <= i < r.len() implies is_pcas_text_byte(#[trigger] r[i]) by {}
    }
    lemma_text_concat(s8, r);
}

/// Writes `PCAS<d1><d2>,` followed by `value` in decimal; a failure of either
/// part is a formatting error.
fn write_tagged_number(w: &mut FixedBuf<'_>, d1: u8, d2: u8, value: u16) -> (r: Result<
    (),
    PcasBuildError,
>)
    ensures
        old(w).fits(pcas_tag(d1, d2).len() + decimal_digits(value as nat).len()) ==> r is Ok
            && final(w).len == old(w).len + pcas_tag(d1, d2).len() + decimal_digits(
            value as nat,
        ).len() && final(w).written() == old(w).written() + pcas_tag(d1, d2) + decimal_digits(
            value as nat,
        ),
        r is Err ==> r == Err::<(), PcasBuildError>(PcasBuildError::Fmt),
        final(w).buf@.len() == old(w).buf@.len(),
        final(final(w).buf)@ == final(old(w).buf)@,
{
    // "PCAS", the command number, ","
    let tag: [u8; 7] = [80, 67, 65, 83, d1, d2, 44];
    assert(tag@ =~= pcas_tag(d1, d2));
    if w.push_bytes(tag.as_slice()).is_err() {
        return Err(PcasBuildError::Fmt);
    }
    let digits = crate::gps::l76k::pcas::models::decimal_bytes(value);
    if w.push_bytes(digits.as_slice()).is_err() {
        return Err(PcasBuildError::Fmt);
    }
    Ok(())
}

/// Writes one PCAS03 rate entry and the comma after it.
fn write_rate_field(w: &mut FixedBuf<'_>, rate: &PcasSentenceRate) -> (r: Result<
    (),
    PcasBuildError,
>)
    requires
        old(w).len + 4 <= old(w).buf@.len(),
    ensures
        r is Ok,
        final(w).written() == old(w).written() + rate.entry_bytes(),
        final(w).len == old(w).len + rate.entry_bytes().len(),
        final(w).len <= old(w).len + 4,
        final(w).buf@.len() == old(w).buf@.len(),
        rate.in_range(),
        final(final(w).buf)@ == final(old(w).buf)@,
{
    proof {
        lemma_entry_is_text(*rate);
    }
    rate.write_to(w)?;
    w.push_byte(44)?;
    assert(w.written() =~= old(w).written() + rate.entry_bytes());
    Ok(())
}

/// Writes the PCAS03 name and its arguments.
fn write_sentence_rates(w: &mut FixedBuf<'_>, cfg: &Pcas03) -> (r: Result<(), PcasBuildError>)
    requires
        old(w).len == 0,
        old(w).buf@.len() >= 64,
    ensures
        r is Ok,
        final(w).written() == cfg.command_bytes(),
        final(w).len <= final(w).buf@.len(),
        cfg.rates_in_range(),
        final(final(w).buf)@ == final(old(w).buf)@,
{
    // "PCAS03,"
    let tag: [u8; 7] = [80, 67, 65, 83, 48, 51, 44];
    assert(tag@ =~= pcas_tag(48, 51));
    w.push_bytes(tag.as_slice())?;
    write_rate_field(w, &cfg.gga)?;
    write_rate_field(w, &cfg.gll)?;
    write_rate_field(w, &cfg.gsa)?;
    write_rate_field(w, &cfg.gsv)?;
    write_rate_field(w, &cfg.rmc)?;
    write_rate_field(w, &cfg.vtg)?;
    write_rate_field(w, &cfg.zda)?;
    write_rate_field(w, &cfg.ant)?;
    // The 9th, 10th, 13th and 14th fields are always 0; the 11th and 12th are
    // reserved and left empty.
    let reserved: [u8; 9] = [48, 44, 48, 44, 44, 44, 48, 44, 48];
    assert(reserved@ =~= pcas03_reserved());
    w.push_bytes(reserved.as_slice())?;
    Ok(())
}

/// Calculates NMEA XOR checksum for the payload body.
fn checksum(body: &[u8]) -> (r: u8)
    ensures
        r == xor_checksum(body@),
{
    let mut acc: u8 = 0;
    let mut i: usize = 0;
    while i < body.len()
        invariant
            0 <= i <= body@.len(),
            acc == xor_checksum(body@.subrange(0, i as int)),
        decreases body@.len() - i,
    {
        assert(body@.subrange(0, i + 1).drop_last() =~= body@.subrange(0, i as int));
        acc = acc ^ body[i];
        i += 1;
    }
    assert(body@.subrange(0, i as int) =~= body@);
    acc
}

/// Converts a nibble to uppercase hexadecimal ASCII.
fn hex_upper(n: u8) -> (r: u8)
    requires
        n < 16,
    ensures
        r == hex_digit(n),
{
    if n < 10 {
        48 + n  // '0'..='9'
    } else {
        65 + (n - 10)  // 'A'..='F'
    }
}

/// Wraps raw PCAS payload into a checksummed NMEA frame.
pub fn encode_pcas<const N: usize>(body: &str) -> (r: Result<EncodedCommand<N>, PcasBuildError>)
    ensures
        pcas_frame(body.spec_bytes()).len() <= N ==> (r matches Ok(c) && c.len == pcas_frame(
            body.spec_bytes(),
        ).len() && c.buf@ == zero_padded(pcas_frame(body.spec_bytes()), N as nat)),
        pcas_frame(body.spec_bytes()).len() > N ==> r == Err::<EncodedCommand<N>, PcasBuildError>(
            PcasBuildError::BufferTooSmall,
        ),
{
    let ghost frame = pcas_frame(body.spec_bytes());
    let mut out = [0u8; N];
    let mut w = FixedBuf::new(&mut out);
    assert(w.written() =~= Seq::<u8>::empty());

    w.push_byte(36)?;
    w.push_bytes(body.as_bytes())?;

    let cs = checksum(body.as_bytes());
    assert(cs >> 4u8 < 16) by (bit_vector);
    assert(cs & 15u8 < 16) by (bit_vector);
    w.push_byte(42)?;
    w.push_byte(hex_upper(cs >> 4))?;
    w.push_byte(hex_upper(cs & 0x0F))?;
    w.push_byte(13)?;
    w.push_byte(10)?;

    assert(w.written() =~= frame);
    let len = w.len;
    assert(w.buf@ =~= zero_padded(frame, N as nat));
    Ok(EncodedCommand { len, buf: out })
}

} // verus!
