use vstd::prelude::*;
use vstd::slice::slice_subrange;
use vstd::string::StringSliceAdditionalSpecFns;
use vstd::utf8::{encode_utf8, is_ascii_chars, valid_utf8};

verus! {

/// The decimal representation of `n`, most significant digit first, with no
/// leading zeros (`0` is the single digit `"0"`).
pub open spec fn decimal_digits(n: nat) -> Seq<u8>
    decreases n,
{
    if n < 10 {
        seq![(48 + n) as u8]
    } else {
        decimal_digits(n / 10).push((48 + n % 10) as u8)
    }
}

/// The number that a string of ASCII decimal digits denotes.
pub open spec fn decimal_value(s: Seq<u8>) -> nat
    decreases s.len(),
{
    if s.len() == 0 {
        0
    } else {
        decimal_value(s.drop_last()) * 10 + (s.last() - 48) as nat
    }
}

/// True when every byte is an ASCII decimal digit.
pub open spec fn is_digit_bytes(s: Seq<u8>) -> bool {
    forall|i: int| 0 <= i < s.len() ==> 48 <= #[trigger] s[i] <= 57
}

/// True when every byte is a 7-bit ASCII byte.
pub open spec fn is_ascii_bytes(s: Seq<u8>) -> bool {
    forall|i: int| 0 <= i < s.len() ==> #[trigger] s[i] < 128
}

/// Decimal formatting is a proper encoding: the digits are ASCII digits, their
/// count grows with the magnitude, and reading them back gives the number.
pub proof fn lemma_decimal_digits(n: nat)
    ensures
        decimal_digits(n).len() >= 1,
        is_digit_bytes(decimal_digits(n)),
        decimal_value(decimal_digits(n)) == n,
        n < 10 ==> decimal_digits(n).len() == 1,
        n < 100 ==> decimal_digits(n).len() <= 2,
        n < 1000 ==> decimal_digits(n).len() <= 3,
        n < 10000 ==> decimal_digits(n).len() <= 4,
        n < 100000 ==> decimal_digits(n).len() <= 5,
        n >= 10 ==> decimal_digits(n)[0] != 48,
    decreases n,
{
    if n >= 10 {
        lemma_decimal_digits(n / 10);
        let d = decimal_digits(n);
        assert(d.drop_last() =~= decimal_digits(n / 10));
        assert(d[0] == decimal_digits(n / 10)[0]);
        assert(d.last() == (48 + n % 10) as u8);
        assert(n == (n / 10) * 10 + n % 10);
        assert(decimal_value(d) == decimal_value(d.drop_last()) * 10 + (d.last() - 48) as nat);
    } else {
        let d = decimal_digits(n);
        assert(d.drop_last() =~= Seq::<u8>::empty());
        assert(decimal_value(d) == decimal_value(d.drop_last()) * 10 + (d.last() - 48) as nat);
    }
}

/// ASCII bytes are always well-formed UTF-8.
pub proof fn lemma_ascii_bytes_are_utf8(s: Seq<u8>)
    requires
        is_ascii_bytes(s),
    ensures
        valid_utf8(s),
{
    let chars = Seq::new(s.len(), |i: int| s[i] as char);
    assert(is_ascii_chars(chars)) by {
        assert forall|i: int| 0 <= i < chars.len() implies '\0' <= #[trigger] chars[i] <= '\u{7f}' by {
            assert(s[i] < 128);
        }
    }
    vstd::utf8::is_ascii_chars_encode_utf8(chars);
    assert forall|i: int| 0 <= i < s.len() implies #[trigger] encode_utf8(chars)[i] == s[i] by {
        assert(chars[i] as u8 == encode_utf8(chars)[i]);
        assert(s[i] < 128);
    }
    assert(encode_utf8(chars) =~= s);
    vstd::utf8::encode_utf8_valid_utf8(chars);
}

/// The digits of `n` as an owned byte vector.
pub(crate) fn decimal_bytes(n: u16) -> (v: Vec<u8>)
    ensures
        v@ == decimal_digits(n as nat),
    decreases n,
{
    if n < 10 {
        let mut v: Vec<u8> = Vec::new();
        v.push(48 + n as u8);
        v
    } else {
        let mut v = decimal_bytes(n / 10);
        v.push(48 + (n % 10) as u8);
        v
    }
}

#[verifier::external_type_specification]
#[verifier::external_body]
pub struct ExUtf8Error(core::str::Utf8Error);

/// Views a byte slice as text, by `core::str::from_utf8`.
///
/// Trusted: it fails exactly on ill-formed UTF-8, and on success the text's
/// UTF-8 bytes are the input. Which error value comes back is not described.
#[verifier::external_body]
pub(crate) fn str_from_utf8(v: &[u8]) -> (r: Result<&str, core::str::Utf8Error>)
    ensures
        r is Ok <==> valid_utf8(v@),
        r matches Ok(s) ==> s.spec_bytes() == v@,
{
    core::str::from_utf8(v)
}

/// Fixed-size encoded PCAS frame ready for UART transmission.
pub struct EncodedCommand<const N: usize> {
    pub len: usize,
    pub buf: [u8; N],
}

impl<const N: usize> EncodedCommand<N> {
    /// The bytes of the frame: the first `len` bytes of the buffer.
    pub open spec fn bytes(&self) -> Seq<u8> {
        self.buf@.subrange(0, self.len as int)
    }

    /// Returns the valid command bytes.
    pub fn as_bytes(&self) -> (r: &[u8])
        requires
            self.len <= N,
        ensures
            r@ == self.bytes(),
    {
        slice_subrange(self.buf.as_slice(), 0, self.len)
    }

    /// Returns the command as UTF-8 text.
    pub fn as_str(&self) -> (r: Result<&str, core::str::Utf8Error>)
        requires
            self.len <= N,
        ensures
            r is Ok <==> valid_utf8(self.bytes()),
            r matches Ok(s) ==> s.spec_bytes() == self.bytes(),
    {
        str_from_utf8(self.as_bytes())
    }
}

/// Errors produced while building a PCAS command.
#[derive(Debug, Clone, Copy, PartialEq, Eq, Structural)]
pub enum PcasBuildError {
    BufferTooSmall,
    Fmt,
}

/// Supported UART baudrate values for PCAS01.
#[derive(Debug, Clone, Copy, PartialEq, Eq, Structural)]
pub enum PcasBaudrate {
    B4800,
    B9600,
    B19200,
    B38400,
    B57600,
    B115200,
}

impl PcasBaudrate {
    /// The protocol code of the baudrate: its position in the list above.
    pub open spec fn spec_code(self) -> u8 {
        match self {
            PcasBaudrate::B4800 => 0,
            PcasBaudrate::B9600 => 1,
            PcasBaudrate::B19200 => 2,
            PcasBaudrate::B38400 => 3,
            PcasBaudrate::B57600 => 4,
            PcasBaudrate::B115200 => 5,
        }
    }

    /// Returns the numeric protocol code.
    pub fn code(self) -> (r: u8)
        ensures
            r == self.spec_code(),
    {
        match self {
            PcasBaudrate::B4800 => 0,
            PcasBaudrate::B9600 => 1,
            PcasBaudrate::B19200 => 2,
            PcasBaudrate::B38400 => 3,
            PcasBaudrate::B57600 => 4,
            PcasBaudrate::B115200 => 5,
        }
    }
}

/// GNSS constellation selection for PCAS04.
#[derive(Debug, Clone, Copy, PartialEq, Eq, Structural)]
pub enum PcasGnssMode {
    Gps,
    BeiDou,
    GpsBeiDou,
    Glonass,
    GpsGlonass,
    BeiDouGlonass,
    GpsBeiDouGlonass,
}

impl PcasGnssMode {
    /// The protocol code: a bit mask with GPS as 1, BeiDou as 2 and GLONASS as 4.
    pub open spec fn spec_code(self) -> u8 {
        match self {
            PcasGnssMode::Gps => 1,
            PcasGnssMode::BeiDou => 2,
            PcasGnssMode::GpsBeiDou => 3,
            PcasGnssMode::Glonass => 4,
            PcasGnssMode::GpsGlonass => 5,
            PcasGnssMode::BeiDouGlonass => 6,
            PcasGnssMode::GpsBeiDouGlonass => 7,
        }
    }

    /// Returns the numeric protocol code.
    pub fn code(self) -> (r: u8)
        ensures
            r == self.spec_code(),
    {
        match self {
            PcasGnssMode::Gps => 1,
            PcasGnssMode::BeiDou => 2,
            PcasGnssMode::GpsBeiDou => 3,
            PcasGnssMode::Glonass => 4,
            PcasGnssMode::GpsGlonass => 5,
            PcasGnssMode::BeiDouGlonass => 6,
            PcasGnssMode::GpsBeiDouGlonass => 7,
        }
    }
}

/// Restart mode for PCAS10.
#[derive(Debug, Clone, Copy, PartialEq, Eq, Structural)]
pub enum PcasRestartMode {
    HotStart,
    WarmStart,
    ColdStart,
    FactoryReset,
}

impl PcasRestartMode {
    /// The protocol code of the restart mode: its position in the list above.
    pub open spec fn spec_code(self) -> u8 {
        match self {
            PcasRestartMode::HotStart => 0,
            PcasRestartMode::WarmStart => 1,
            PcasRestartMode::ColdStart => 2,
            PcasRestartMode::FactoryReset => 3,
        }
    }

    /// Returns the numeric protocol code.
    pub fn code(self) -> (r: u8)
        ensures
            r == self.spec_code(),
    {
        match self {
            PcasRestartMode::HotStart => 0,
            PcasRestartMode::WarmStart => 1,
            PcasRestartMode::ColdStart => 2,
            PcasRestartMode::FactoryReset => 3,
        }
    }
}

/// Distinct baudrates, constellation selections and restart modes have
/// distinct protocol codes, so a receiver can tell each choice apart.
pub proof fn lemma_codes_are_distinct()
    ensures
        forall|a: PcasBaudrate, b: PcasBaudrate|
            #[trigger] a.spec_code() == #[trigger] b.spec_code() ==> a == b,
        forall|a: PcasGnssMode, b: PcasGnssMode|
            #[trigger] a.spec_code() == #[trigger] b.spec_code() ==> a == b,
        forall|a: PcasRestartMode, b: PcasRestartMode|
            #[trigger] a.spec_code() == #[trigger] b.spec_code() ==> a == b,
{
}

impl PcasBaudrate {
    /// The line speed the baudrate names, in bits per second.
    pub open spec fn bits_per_second(self) -> nat {
        match self {
            PcasBaudrate::B4800 => 4800,
            PcasBaudrate::B9600 => 9600,
            PcasBaudrate::B19200 => 19200,
            PcasBaudrate::B38400 => 38400,
            PcasBaudrate::B57600 => 57600,
            PcasBaudrate::B115200 => 115200,
        }
    }
}

/// The PCAS01 code of a baudrate is its rank among the six supported speeds,
/// slowest first: codes run from 0 to 5 and a faster line has a larger code.
pub proof fn lemma_baudrate_codes_rank_speeds(a: PcasBaudrate, b: PcasBaudrate)
    ensures
        a.spec_code() <= 5,
        a.bits_per_second() < b.bits_per_second() <==> a.spec_code() < b.spec_code(),
{
}

impl PcasGnssMode {
    /// True when the selection includes GPS.
    pub open spec fn uses_gps(self) -> bool {
        match self {
            PcasGnssMode::Gps | PcasGnssMode::GpsBeiDou | PcasGnssMode::GpsGlonass
            | PcasGnssMode::GpsBeiDouGlonass => true,
            _ => false,
        }
    }

    /// True when the selection includes BeiDou.
    pub open spec fn uses_beidou(self) -> bool {
        match self {
            PcasGnssMode::BeiDou | PcasGnssMode::GpsBeiDou | PcasGnssMode::BeiDouGlonass
            | PcasGnssMode::GpsBeiDouGlonass => true,
            _ => false,
        }
    }

    /// True when the selection includes GLONASS.
    pub open spec fn uses_glonass(self) -> bool {
        match self {
            PcasGnssMode::Glonass | PcasGnssMode::GpsGlonass | PcasGnssMode::BeiDouGlonass
            | PcasGnssMode::GpsBeiDouGlonass => true,
            _ => false,
        }
    }
}

/// The PCAS04 code is a bit mask of the selected systems: 1 for GPS, 2 for
/// BeiDou, 4 for GLONASS; every selection names at least one system.
pub proof fn lemma_gnss_code_is_system_mask(mode: PcasGnssMode)
    ensures
        mode.spec_code() == (if mode.uses_gps() {
            1int
        } else {
            0int
        }) + (if mode.uses_beidou() {
            2int
        } else {
            0int
        }) + (if mode.uses_glonass() {
            4int
        } else {
            0int
        }),
        mode.spec_code() >= 1,
{
}

impl PcasRestartMode {
    /// True when the restart keeps the satellite ephemeris (a hot start).
    pub open spec fn keeps_ephemeris(self) -> bool {
        self is HotStart
    }

    /// True when the restart keeps the almanac, time and last position (a hot
    /// or warm start).
    pub open spec fn keeps_almanac(self) -> bool {
        self is HotStart || self is WarmStart
    }

    /// True when the restart keeps the receiver's configuration (anything but
    /// a factory reset).
    pub open spec fn keeps_configuration(self) -> bool {
        !(self is FactoryReset)
    }
}

/// The PCAS10 code counts what the restart discards: the ephemeris, then the
/// almanac, time and position, then the configuration.
pub proof fn lemma_restart_code_counts_discarded_state(mode: PcasRestartMode)
    ensures
        mode.spec_code() == (if mode.keeps_ephemeris() {
            0int
        } else {
            1int
        }) + (if mode.keeps_almanac() {
            0int
        } else {
            1int
        }) + (if mode.keeps_configuration() {
            0int
        } else {
            1int
        }),
        mode.keeps_almanac() ==> mode.keeps_configuration(),
        mode.keeps_ephemeris() ==> mode.keeps_almanac(),
{
}

/// Per-sentence output rate entry used by PCAS03: `None` keeps the current
/// rate, `Some(n)` emits the sentence every `n` fix cycles (`0` disables it).
#[derive(Debug, Clone, Copy, PartialEq, Eq, Structural)]
pub struct PcasSentenceRate(Option<u8>);

impl PcasSentenceRate {
    /// A rate is never more than nine cycles.
    #[verifier::type_invariant]
    spec fn well_formed(self) -> bool {
        match self.0 {
            Some(n) => n <= 9,
            None => true,
        }
    }

    /// The configured rate: `None` keeps the receiver's current setting.
    pub closed spec fn rate(self) -> Option<u8> {
        self.0
    }

    /// The text of this entry in a PCAS03 command: nothing for "keep",
    /// otherwise the decimal rate.
    pub open spec fn field_bytes(self) -> Seq<u8> {
        match self.rate() {
            Some(n) => decimal_digits(n as nat),
            None => seq![],
        }
    }

    /// The entry that keeps the receiver's current rate.
    pub fn keep() -> (r: Self)
        ensures
            r.rate() == None::<u8>,
    {
        PcasSentenceRate(None)
    }

    /// The entry that disables the sentence.
    pub fn off() -> (r: Self)
        ensures
            r.rate() == Some(0u8),
    {
        PcasSentenceRate(Some(0))
    }

    /// An entry is nothing but its rate: entries with the same rate are the
    /// same value (so `every_n(0)` is `off()`).
    pub proof fn lemma_rate_determines_value(a: Self, b: Self)
        ensures
            a.rate() == b.rate() ==> a == b,
    {
    }

    /// The rate, when one is set, is at most nine cycles (every value of this
    /// type keeps to that).
    pub open spec fn in_range(self) -> bool {
        self.rate() matches Some(n) ==> n <= 9
    }

    /// One when the entry sets a rate, zero when it keeps the current one.
    pub open spec fn set_count(self) -> nat {
        if self.rate() is Some {
            1
        } else {
            0
        }
    }

    /// The entry followed by its separating comma.
    pub open spec fn entry_bytes(self) -> Seq<u8> {
        self.field_bytes() + seq![44u8]
    }

    /// Enables a sentence every `n` cycles.
    pub fn every_n(n: u8) -> (r: Self)
        requires
            n <= 9,
        ensures
            r.rate() == Some(n),
    {
        PcasSentenceRate(Some(n))
    }

    /// Writes the field in PCAS03 comma format.
    pub fn write_to(&self, w: &mut FixedBuf<'_>) -> (r: Result<(), PcasBuildError>)
        ensures
            self.rate() is None ==> r is Ok && final(w).len == old(w).len && final(w).buf@
                == old(w).buf@,
            self.rate() is Some && old(w).fits(self.field_bytes().len()) ==> r is Ok
                && final(w).len == old(w).len + self.field_bytes().len() && final(w).buf@
                == old(w).appended(self.field_bytes()) && final(w).written() == old(w).written()
                + self.field_bytes(),
            self.rate() is Some && !old(w).fits(self.field_bytes().len()) ==> r == Err::<
                (),
                PcasBuildError,
            >(PcasBuildError::Fmt) && final(w).len == old(w).len && final(w).buf@ == old(w).buf@,
            final(final(w).buf)@ == final(old(w).buf)@,
            self.in_range(),
    {
        proof {
            use_type_invariant(self);
        }
        match self.0 {
            Some(v) => {
                let digits = decimal_bytes(v as u16);
                match w.push_bytes(digits.as_slice()) {
                    Ok(()) => Ok(()),
                    Err(_) => Err(PcasBuildError::Fmt),
                }
            },
            None => Ok(()),
        }
    }
}

/// Sentence-rate configuration payload for PCAS03.
#[derive(Debug, Clone, Copy, PartialEq, Eq, Structural)]
pub struct Pcas03 {
    pub gga: PcasSentenceRate,
    pub gll: PcasSentenceRate,
    pub gsa: PcasSentenceRate,
    pub gsv: PcasSentenceRate,
    pub rmc: PcasSentenceRate,
    pub vtg: PcasSentenceRate,
    pub zda: PcasSentenceRate,
    pub ant: PcasSentenceRate,
}

/// `PCAS` followed by the two digits of a command number and a comma.
pub open spec fn pcas_tag(d1: u8, d2: u8) -> Seq<u8> {
    seq![80u8, 67u8, 65u8, 83u8, d1, d2, 44u8]
}

/// The six reserved PCAS03 fields: `0,0,,,0,0`.
pub open spec fn pcas03_reserved() -> Seq<u8> {
    seq![48u8, 44u8, 48u8, 44u8, 44u8, 44u8, 48u8, 44u8, 48u8]
}

impl Pcas03 {
    /// The PCAS03 payload: the command name, the eight rate entries, each
    /// followed by a comma, then the reserved fields.
    pub open spec fn command_bytes(self) -> Seq<u8> {
        pcas_tag(48, 51) + self.gga.entry_bytes() + self.gll.entry_bytes()
            + self.gsa.entry_bytes() + self.gsv.entry_bytes() + self.rmc.entry_bytes()
            + self.vtg.entry_bytes() + self.zda.entry_bytes() + self.ant.entry_bytes()
            + pcas03_reserved()
    }

    /// Every entry keeps to the range of rates.
    pub open spec fn rates_in_range(self) -> bool {
        &&& self.gga.in_range()
        &&& self.gll.in_range()
        &&& self.gsa.in_range()
        &&& self.gsv.in_range()
        &&& self.rmc.in_range()
        &&& self.vtg.in_range()
        &&& self.zda.in_range()
        &&& self.ant.in_range()
    }

    /// How many of the eight entries set a rate.
    pub open spec fn set_count(self) -> nat {
        self.gga.set_count() + self.gll.set_count() + self.gsa.set_count() + self.gsv.set_count()
            + self.rmc.set_count() + self.vtg.set_count() + self.zda.set_count()
            + self.ant.set_count()
    }

    /// Disables every known sentence.
    pub fn all_off() -> (r: Self)
        ensures
            r.gga.rate() == Some(0u8),
            r.gll.rate() == Some(0u8),
            r.gsa.rate() == Some(0u8),
            r.gsv.rate() == Some(0u8),
            r.rmc.rate() == Some(0u8),
            r.vtg.rate() == Some(0u8),
            r.zda.rate() == Some(0u8),
            r.ant.rate() == Some(0u8),
    {
        Pcas03 {
            gga: PcasSentenceRate::off(),
            gll: PcasSentenceRate::off(),
            gsa: PcasSentenceRate::off(),
            gsv: PcasSentenceRate::off(),
            rmc: PcasSentenceRate::off(),
            vtg: PcasSentenceRate::off(),
            zda: PcasSentenceRate::off(),
            ant: PcasSentenceRate::off(),
        }
    }

    /// Keeps current rates for every known sentence.
    pub fn all_keep() -> (r: Self)
        ensures
            r.gga.rate() == None::<u8>,
            r.gll.rate() == None::<u8>,
            r.gsa.rate() == None::<u8>,
            r.gsv.rate() == None::<u8>,
            r.rmc.rate() == None::<u8>,
            r.vtg.rate() == None::<u8>,
            r.zda.rate() == None::<u8>,
            r.ant.rate() == None::<u8>,
    {
        Pcas03 {
            gga: PcasSentenceRate::keep(),
            gll: PcasSentenceRate::keep(),
            gsa: PcasSentenceRate::keep(),
            gsv: PcasSentenceRate::keep(),
            rmc: PcasSentenceRate::keep(),
            vtg: PcasSentenceRate::keep(),
            zda: PcasSentenceRate::keep(),
            ant: PcasSentenceRate::keep(),
        }
    }
}

/// Small fixed writer used to build command buffers in `no_std`.
pub struct FixedBuf<'a> {
    pub buf: &'a mut [u8],
    pub len: usize,
}

impl<'a> FixedBuf<'a> {
    /// True when `n` more bytes fit after the written ones.
    pub open spec fn fits(&self, n: nat) -> bool {
        self.len + n <= self.buf@.len()
    }

    /// The buffer after `data` is written at the current position.
    pub open spec fn appended(&self, data: Seq<u8>) -> Seq<u8> {
        self.buf@.subrange(0, self.len as int) + data + self.buf@.subrange(
            self.len + data.len(),
            self.buf@.len() as int,
        )
    }

    /// The bytes written so far.
    pub open spec fn written(&self) -> Seq<u8> {
        self.buf@.subrange(0, self.len as int)
    }

    /// Creates a writer over a mutable byte slice.
    pub fn new(buf: &'a mut [u8]) -> (w: Self)
        ensures
            w.len == 0,
            w.buf@ == old(buf)@,
            final(w.buf)@ == final(buf)@,
    {
        FixedBuf { buf, len: 0 }
    }

    /// Returns the currently written bytes.
    pub fn as_bytes(&self) -> (r: &[u8])
        requires
            self.len <= self.buf@.len(),
        ensures
            r@ == self.written(),
    {
        slice_subrange(&*self.buf, 0, self.len)
    }

    /// Appends a single byte.
    pub fn push_byte(&mut self, b: u8) -> (r: Result<(), PcasBuildError>)
        ensures
            old(self).fits(1) ==> r is Ok && final(self).len == old(self).len + 1
                && final(self).buf@ == old(self).buf@.update(old(self).len as int, b)
                && final(self).written() == old(self).written().push(b),
            !old(self).fits(1) ==> r == Err::<(), PcasBuildError>(PcasBuildError::BufferTooSmall)
                && final(self).len == old(self).len && final(self).buf@ == old(self).buf@,
            final(final(self).buf)@ == final(old(self).buf)@,
    {
        if self.len >= self.buf.len() {
            return Err(PcasBuildError::BufferTooSmall);
        }
        self.buf[self.len] = b;
        self.len += 1;
        assert(self.written() =~= old(self).written().push(b));
        Ok(())
    }

    /// Appends a byte slice.
    pub fn push_bytes(&mut self, data: &[u8]) -> (r: Result<(), PcasBuildError>)
        ensures
            old(self).fits(data@.len()) ==> r is Ok && final(self).len == old(self).len
                + data@.len() && final(self).buf@ == old(self).appended(data@)
                && final(self).written() == old(self).written() + data@,
            !old(self).fits(data@.len()) ==> r == Err::<(), PcasBuildError>(
                PcasBuildError::BufferTooSmall,
            ) && final(self).len == old(self).len && final(self).buf@ == old(self).buf@,
            final(final(self).buf)@ == final(old(self).buf)@,
    {
        if self.len > self.buf.len() || data.len() > self.buf.len() - self.len {
            return Err(PcasBuildError::BufferTooSmall);
        }
        let start = self.len;
        let ghost old_buf = self.buf@;
        let mut i: usize = 0;
        while i < data.len()
            invariant
                start == old(self).len,
                start + data@.len() <= self.buf@.len(),
                start + data@.len() <= usize::MAX,
                self.len == start,
                old_buf == old(self).buf@,
                self.buf@.len() == old_buf.len(),
                0 <= i <= data@.len(),
                forall|k: int| 0 <= k < start ==> self.buf@[k] == old_buf[k],
                forall|k: int| start <= k < start + i ==> self.buf@[k] == data@[k - start],
                forall|k: int| start + i <= k < old_buf.len() ==> self.buf@[k] == old_buf[k],
                final(self.buf)@ == final(old(self).buf)@,
            decreases data@.len() - i,
        {
            self.buf[start + i] = data[i];
            i += 1;
        }
        self.len = start + data.len();
        assert(self.buf@ =~= old_buf.subrange(0, start as int) + data@ + old_buf.subrange(
            start + data@.len(),
            old_buf.len() as int,
        ));
        assert(self.written() =~= old(self).written() + data@);
        Ok(())
    }
}

} // verus!
