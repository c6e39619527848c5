//! What a receiver reads out of an encoded command: the comma-separated
//! fields of the payload, and which command they name.

use vstd::prelude::*;

use crate::gps::l76k::pcas::models::{
    decimal_digits, decimal_value, is_digit_bytes, lemma_codes_are_distinct,
    lemma_decimal_digits, Pcas03, PcasSentenceRate,
};
use crate::gps::l76k::pcas::request::{pcas_frame, PcasCommand};

verus! {

/// The comma-separated fields of a text, as a receiver splits a sentence's
/// payload: a text without commas is one field, and each comma starts a new
/// (possibly empty) field.
pub open spec fn split_fields(s: Seq<u8>) -> Seq<Seq<u8>>
    decreases s.len(),
{
    if s.len() == 0 {
        seq![Seq::<u8>::empty()]
    } else {
        let prev = split_fields(s.drop_last());
        if s.last() == 44 {
            prev.push(Seq::<u8>::empty())
        } else {
            prev.update(prev.len() - 1, prev.last().push(s.last()))
        }
    }
}

/// The field that a PCAS03 rate occupies: one decimal digit for a set rate,
/// nothing for "keep the current rate".
pub open spec fn rate_text(rate: Option<u8>) -> Seq<u8> {
    match rate {
        Some(n) => seq![(48 + n) as u8],
        None => Seq::<u8>::empty(),
    }
}

/// The first field of a command: `PCAS` and the command number.
pub open spec fn name_field(d1: u8, d2: u8) -> Seq<u8> {
    seq![80u8, 67u8, 65u8, 83u8, d1, d2]
}

/// True when no byte is a comma.
pub open spec fn no_comma(w: Seq<u8>) -> bool {
    forall|i: int| 0 <= i < w.len() ==> #[trigger] w[i] != 44
}

proof fn lemma_split_fields_len(s: Seq<u8>)
    ensures
        split_fields(s).len() >= 1,
    decreases s.len(),
{
    if s.len() > 0 {
        lemma_split_fields_len(s.drop_last());
    }
}

/// Appending one byte: a comma opens a new field, any other byte extends the
/// last field.
proof fn lemma_split_push(s: Seq<u8>, c: u8)
    ensures
        c == 44 ==> split_fields(s.push(c)) == split_fields(s).push(Seq::<u8>::empty()),
        c != 44 ==> split_fields(s.push(c)) == split_fields(s).update(
            split_fields(s).len() - 1,
            split_fields(s).last().push(c),
        ),
{
    assert(s.push(c).drop_last() =~= s);
    assert(s.push(c).last() == c);
}

/// Appending a text without commas extends the last field by it.
proof fn lemma_split_append_word(s: Seq<u8>, w: Seq<u8>)
    requires
        no_comma(w),
    ensures
        split_fields(s + w) == split_fields(s).update(
            split_fields(s).len() - 1,
            split_fields(s).last() + w,
        ),
    decreases w.len(),
{
    let p = split_fields(s);
    lemma_split_fields_len(s);
    if w.len() == 0 {
        assert(s + w =~= s);
        assert(p.last() + w =~= p.last());
        assert(p.update(p.len() - 1, p.last() + w) =~= p);
    } else {
        let w0 = w.drop_last();
        let x = w.last();
        assert(no_comma(w0)) by {
            assert forall|i: int| 0 <= i < w0.len() implies #[trigger] w0[i] != 44 by {
                assert(w0[i] == w[i]);
            }
        }
        assert(x != 44) by {
            assert(w[w.len() - 1] != 44);
        }
        lemma_split_append_word(s, w0);
        assert(s + w =~= (s + w0).push(x));
        lemma_split_push(s + w0, x);
        let q = split_fields(s + w0);
        assert(q =~= p.update(p.len() - 1, p.last() + w0));
        assert(q.last() == p.last() + w0);
        assert((p.last() + w0).push(x) =~= p.last() + w);
        assert(q.update(q.len() - 1, q.last().push(x)) =~= p.update(p.len() - 1, p.last() + w));
    }
}

/// Appending a word and a comma: the word extends the last field and the
/// comma opens an empty one.
proof fn lemma_split_append_field(s: Seq<u8>, w: Seq<u8>)
    requires
        no_comma(w),
        split_fields(s).last() == Seq::<u8>::empty(),
    ensures
        split_fields(s + w.push(44)) == split_fields(s).update(split_fields(s).len() - 1, w).push(
            Seq::<u8>::empty(),
        ),
{
    lemma_split_fields_len(s);
    lemma_split_append_word(s, w);
    assert(s + w.push(44) =~= (s + w).push(44));
    lemma_split_push(s + w, 44);
    assert(split_fields(s).last() + w =~= w);
}

/// A decimal text holds no comma.
proof fn lemma_digits_no_comma(n: nat)
    ensures
        no_comma(decimal_digits(n)),
{
    lemma_decimal_digits(n);
    let d = decimal_digits(n);
    assert forall|i: int| 0 <= i < d.len() implies #[trigger] d[i] != 44 by {
        assert(is_digit_bytes(d));
        assert(48 <= d[i] <= 57);
    }
}

/// The fields of a one-argument command: its name and the argument.
proof fn lemma_split_tagged(d1: u8, d2: u8, arg: Seq<u8>)
    requires
        no_comma(arg),
        d1 != 44,
        d2 != 44,
    ensures
        split_fields(seq![80u8, 67u8, 65u8, 83u8, d1, d2, 44u8] + arg) == seq![
            name_field(d1, d2),
            arg,
        ],
{
    let e = Seq::<u8>::empty();
    let word = name_field(d1, d2);
    assert(no_comma(word)) by {
        assert forall|i: int| 0 <= i < word.len() implies #[trigger] word[i] != 44 by {}
    }
    assert(split_fields(e) == seq![e]);
    assert(seq![80u8, 67u8, 65u8, 83u8, d1, d2, 44u8] =~= e + word.push(44));
    lemma_split_append_field(e, word);
    assert(split_fields(e + word.push(44)) =~= seq![word, e]);
    lemma_split_append_word(e + word.push(44), arg);
    assert(e + arg =~= arg);
    assert(split_fields(e + word.push(44) + arg) =~= seq![word, arg]);
}

/// A PCAS03 entry: its rate's field, then the comma that opens the next one.
proof fn lemma_split_entry(s: Seq<u8>, rate: PcasSentenceRate)
    requires
        rate.in_range(),
        split_fields(s).last() == Seq::<u8>::empty(),
    ensures
        split_fields(s + rate.entry_bytes()) == split_fields(s).update(
            split_fields(s).len() - 1,
            rate_text(rate.rate()),
        ).push(Seq::<u8>::empty()),
{
    let t = rate_text(rate.rate());
    assert(rate.field_bytes() =~= t);
    assert(no_comma(t)) by {
        assert forall|i: int| 0 <= i < t.len() implies #[trigger] t[i] != 44 by {}
    }
    assert(rate.entry_bytes() =~= t.push(44));
    lemma_split_append_field(s, t);
}

/// Four PCAS03 entries in a row: their rates in order, then an empty field.
proof fn lemma_split_four_entries(
    s: Seq<u8>,
    a: PcasSentenceRate,
    b: PcasSentenceRate,
    c: PcasSentenceRate,
    d: PcasSentenceRate,
)
    requires
        a.in_range(),
        b.in_range(),
        c.in_range(),
        d.in_range(),
        split_fields(s).last() == Seq::<u8>::empty(),
    ensures
        split_fields(s + a.entry_bytes() + b.entry_bytes() + c.entry_bytes() + d.entry_bytes())
            == split_fields(s).update(split_fields(s).len() - 1, rate_text(a.rate())).push(
            rate_text(b.rate()),
        ).push(rate_text(c.rate())).push(rate_text(d.rate())).push(Seq::<u8>::empty()),
{
    let e = Seq::<u8>::empty();
    let f = split_fields(s);
    lemma_split_fields_len(s);
    let s1 = s + a.entry_bytes();
    lemma_split_entry(s, a);
    let f1 = f.update(f.len() - 1, rate_text(a.rate())).push(e);
    let s2 = s1 + b.entry_bytes();
    lemma_split_entry(s1, b);
    let f2 = f.update(f.len() - 1, rate_text(a.rate())).push(rate_text(b.rate())).push(e);
    assert(f1.update(f1.len() - 1, rate_text(b.rate())).push(e) =~= f2);
    let s3 = s2 + c.entry_bytes();
    lemma_split_entry(s2, c);
    let f3 = f.update(f.len() - 1, rate_text(a.rate())).push(rate_text(b.rate())).push(
        rate_text(c.rate()),
    ).push(e);
    assert(f2.update(f2.len() - 1, rate_text(c.rate())).push(e) =~= f3);
    lemma_split_entry(s3, d);
    assert(f3.update(f3.len() - 1, rate_text(d.rate())).push(e) =~= f.update(
        f.len() - 1,
        rate_text(a.rate()),
    ).push(rate_text(b.rate())).push(rate_text(c.rate())).push(rate_text(d.rate())).push(e));
}

/// The reserved PCAS03 fields `0,0,,,0,0` after an open empty field.
proof fn lemma_split_reserved(s: Seq<u8>)
    requires
        split_fields(s).last() == Seq::<u8>::empty(),
    ensures
        split_fields(s + crate::gps::l76k::pcas::models::pcas03_reserved()) == split_fields(
            s,
        ).update(split_fields(s).len() - 1, seq![48u8]).push(seq![48u8]).push(
            Seq::<u8>::empty(),
        ).push(Seq::<u8>::empty()).push(seq![48u8]).push(seq![48u8]),
{
    let e = Seq::<u8>::empty();
    let z = seq![48u8];
    let f = split_fields(s);
    lemma_split_fields_len(s);
    assert(no_comma(z)) by {
        assert forall|i: int| 0 <= i < z.len() implies #[trigger] z[i] != 44 by {}
    }
    assert(no_comma(e));
    let t1 = s + z.push(44);
    lemma_split_append_field(s, z);
    let g1 = f.update(f.len() - 1, z).push(e);
    let t2 = t1 + z.push(44);
    lemma_split_append_field(t1, z);
    let g2 = f.update(f.len() - 1, z).push(z).push(e);
    assert(g1.update(g1.len() - 1, z).push(e) =~= g2);
    let t3 = t2 + e.push(44);
    lemma_split_append_field(t2, e);
    let g3 = g2.update(g2.len() - 1, e).push(e);
    assert(g3 =~= f.update(f.len() - 1, z).push(z).push(e).push(e));
    let t4 = t3 + e.push(44);
    lemma_split_append_field(t3, e);
    let g4 = g3.update(g3.len() - 1, e).push(e);
    assert(g4 =~= f.update(f.len() - 1, z).push(z).push(e).push(e).push(e));
    let t5 = t4 + z.push(44);
    lemma_split_append_field(t4, z);
    let g5 = g4.update(g4.len() - 1, z).push(e);
    assert(g5 =~= f.update(f.len() - 1, z).push(z).push(e).push(e).push(z).push(e));
    let t6 = t5 + z;
    lemma_split_append_word(t5, z);
    assert(g5.last() + z =~= z);
    assert(g5.update(g5.len() - 1, z) =~= f.update(f.len() - 1, z).push(z).push(e).push(e).push(
        z,
    ).push(z));
    assert(t6 =~= s + crate::gps::l76k::pcas::models::pcas03_reserved());
}

/// A receiver splits a PCAS03 payload into fifteen fields: the command name,
/// the rates of GGA, GLL, GSA, GSV, RMC, VTG, ZDA and ANT in that order (one
/// digit each, empty where the current rate is kept), then the reserved
/// fields `0`, `0`, empty, empty, `0`, `0`.
#[verifier::rlimit(30)]
pub proof fn lemma_pcas03_fields(cfg: Pcas03)
    requires
        cfg.rates_in_range(),
    ensures
        split_fields(PcasCommand::Pcas03SetSentenceRates(cfg).body()) == seq![
            name_field(48, 51),
            rate_text(cfg.gga.rate()),
            rate_text(cfg.gll.rate()),
            rate_text(cfg.gsa.rate()),
            rate_text(cfg.gsv.rate()),
            rate_text(cfg.rmc.rate()),
            rate_text(cfg.vtg.rate()),
            rate_text(cfg.zda.rate()),
            rate_text(cfg.ant.rate()),
            seq![48u8],
            seq![48u8],
            Seq::<u8>::empty(),
            Seq::<u8>::empty(),
            seq![48u8],
            seq![48u8],
        ],
{
    let e = Seq::<u8>::empty();
    let z = seq![48u8];
    let word = name_field(48, 51);
    assert(no_comma(word)) by {
        assert forall|i: int| 0 <= i < word.len() implies #[trigger] word[i] != 44 by {}
    }
    assert(split_fields(e) == seq![e]);
    let s0 = e + word.push(44);
    assert(s0 =~= crate::gps::l76k::pcas::models::pcas_tag(48, 51));
    lemma_split_append_field(e, word);
    let f0 = seq![word, e];
    assert(split_fields(s0) =~= f0);
    let s4 = s0 + cfg.gga.entry_bytes() + cfg.gll.entry_bytes() + cfg.gsa.entry_bytes()
        + cfg.gsv.entry_bytes();
    lemma_split_four_entries(s0, cfg.gga, cfg.gll, cfg.gsa, cfg.gsv);
    let f4 = seq![
        word,
        rate_text(cfg.gga.rate()),
        rate_text(cfg.gll.rate()),
        rate_text(cfg.gsa.rate()),
        rate_text(cfg.gsv.rate()),
        e,
    ];
    assert(split_fields(s4) =~= f4);
    let s8 = s4 + cfg.rmc.entry_bytes() + cfg.vtg.entry_bytes() + cfg.zda.entry_bytes()
        + cfg.ant.entry_bytes();
    lemma_split_four_entries(s4, cfg.rmc, cfg.vtg, cfg.zda, cfg.ant);
    let f8 = seq![
        word,
        rate_text(cfg.gga.rate()),
        rate_text(cfg.gll.rate()),
        rate_text(cfg.gsa.rate()),
        rate_text(cfg.gsv.rate()),
        rate_text(cfg.rmc.rate()),
        rate_text(cfg.vtg.rate()),
        rate_text(cfg.zda.rate()),
        rate_text(cfg.ant.rate()),
        e,
    ];
    assert(split_fields(s8) =~= f8);
    lemma_split_reserved(s8);
    assert(s8 + crate::gps::l76k::pcas::models::pcas03_reserved() == PcasCommand::Pcas03SetSentenceRates(cfg).body());
    assert(f8.update(9, z).push(z).push(e).push(e).push(z).push(z) =~= seq![
        word,
        rate_text(cfg.gga.rate()),
        rate_text(cfg.gll.rate()),
        rate_text(cfg.gsa.rate()),
        rate_text(cfg.gsv.rate()),
        rate_text(cfg.rmc.rate()),
        rate_text(cfg.vtg.rate()),
        rate_text(cfg.zda.rate()),
        rate_text(cfg.ant.rate()),
        z,
        z,
        e,
        e,
        z,
        z,
    ]);
}

/// What a receiver reads out of each command's payload: the command name,
/// then its arguments. A baudrate, a constellation selection or a restart
/// mode is sent as the single digit of its protocol code, and an update
/// interval as its decimal digits, without leading zeros.
pub proof fn lemma_command_fields(cmd: PcasCommand)
    requires
        cmd matches PcasCommand::Pcas03SetSentenceRates(cfg) ==> cfg.rates_in_range(),
    ensures
        cmd matches PcasCommand::Pcas01SetBaudrate(baud) ==> split_fields(cmd.body()) == seq![
            name_field(48, 49),
            seq![(48 + baud.spec_code()) as u8],
        ],
        cmd matches PcasCommand::Pcas02SetUpdateRateMs(interval_ms) ==> {
            let f = split_fields(cmd.body());
            &&& f.len() == 2
            &&& f[0] == name_field(48, 50)
            &&& is_digit_bytes(f[1])
            &&& decimal_value(f[1]) == interval_ms
            &&& f[1].len() >= 1
            &&& (f[1].len() > 1 ==> f[1][0] != 48)
        },
        cmd matches PcasCommand::Pcas04SetGnss(mode) ==> split_fields(cmd.body()) == seq![
            name_field(48, 52),
            seq![(48 + mode.spec_code()) as u8],
        ],
        cmd matches PcasCommand::Pcas10Restart(mode) ==> split_fields(cmd.body()) == seq![
            name_field(49, 48),
            seq![(48 + mode.spec_code()) as u8],
        ],
        cmd matches PcasCommand::Pcas03SetSentenceRates(cfg) ==> split_fields(cmd.body()) == seq![
            name_field(48, 51),
            rate_text(cfg.gga.rate()),
            rate_text(cfg.gll.rate()),
            rate_text(cfg.gsa.rate()),
            rate_text(cfg.gsv.rate()),
            rate_text(cfg.rmc.rate()),
            rate_text(cfg.vtg.rate()),
            rate_text(cfg.zda.rate()),
            rate_text(cfg.ant.rate()),
            seq![48u8],
            seq![48u8],
            Seq::<u8>::empty(),
            Seq::<u8>::empty(),
            seq![48u8],
            seq![48u8],
        ],
{
    match cmd {
        PcasCommand::Pcas01SetBaudrate(baud) => {
            let c = baud.spec_code();
            assert(decimal_digits(c as nat) =~= seq![(48 + c) as u8]);
            lemma_digits_no_comma(c as nat);
            lemma_split_tagged(48, 49, decimal_digits(c as nat));
        },
        PcasCommand::Pcas02SetUpdateRateMs(interval_ms) => {
            lemma_decimal_digits(interval_ms as nat);
            lemma_digits_no_comma(interval_ms as nat);
            lemma_split_tagged(48, 50, decimal_digits(interval_ms as nat));
        },
        PcasCommand::Pcas03SetSentenceRates(cfg) => {
            lemma_pcas03_fields(cfg);
        },
        PcasCommand::Pcas04SetGnss(mode) => {
            let c = mode.spec_code();
            assert(decimal_digits(c as nat) =~= seq![(48 + c) as u8]);
            lemma_digits_no_comma(c as nat);
            lemma_split_tagged(48, 52, decimal_digits(c as nat));
        },
        PcasCommand::Pcas10Restart(mode) => {
            let c = mode.spec_code();
            assert(decimal_digits(c as nat) =~= seq![(48 + c) as u8]);
            lemma_digits_no_comma(c as nat);
            lemma_split_tagged(49, 48, decimal_digits(c as nat));
        },
    }
}

/// Rate fields within range tell the rates apart.
proof fn lemma_rate_text_injective(a: PcasSentenceRate, b: PcasSentenceRate)
    requires
        a.in_range(),
        b.in_range(),
        rate_text(a.rate()) == rate_text(b.rate()),
    ensures
        a == b,
{
    match (a.rate(), b.rate()) {
        (Some(x), Some(y)) => {
            assert(x <= 9 && y <= 9);
            assert(rate_text(a.rate()) == seq![(48 + x) as u8]);
            assert(rate_text(b.rate()) == seq![(48 + y) as u8]);
            assert(rate_text(a.rate())[0] == rate_text(b.rate())[0]);
            assert((48 + x) as u8 == 48 + x);
            assert((48 + y) as u8 == 48 + y);
            assert(seq![(48 + x) as u8][0] == (48 + x) as u8);
            assert(seq![(48 + y) as u8][0] == (48 + y) as u8);
            assert(x == y);
        },
        (Some(x), None) => {
            assert(rate_text(a.rate()).len() == 1);
        },
        (None, Some(y)) => {
            assert(rate_text(b.rate()).len() == 1);
        },
        (None, None) => {},
    }
    assert(a.rate() == b.rate());
    PcasSentenceRate::lemma_rate_determines_value(a, b);
}

/// Different commands are sent as different frames: a receiver can tell from
/// the frame which command was meant, with which argument.
#[verifier::rlimit(30)]
pub proof fn lemma_frames_identify_commands(c1: PcasCommand, c2: PcasCommand)
    requires
        c1 matches PcasCommand::Pcas03SetSentenceRates(cfg) ==> cfg.rates_in_range(),
        c2 matches PcasCommand::Pcas03SetSentenceRates(cfg) ==> cfg.rates_in_range(),
        pcas_frame(c1.body()) == pcas_frame(c2.body()),
    ensures
        c1 == c2,
{
    let b1 = c1.body();
    let b2 = c2.body();
    assert(pcas_frame(b1).subrange(1, pcas_frame(b1).len() - 5) =~= b1);
    assert(pcas_frame(b2).subrange(1, pcas_frame(b2).len() - 5) =~= b2);
    assert(b1 == b2);
    lemma_command_fields(c1);
    lemma_command_fields(c2);
    lemma_codes_are_distinct();
    let f = split_fields(b1);
    let n = f[0];
    assert(n[4] == f[0][4] && n[5] == f[0][5]);
    match c1 {
        PcasCommand::Pcas01SetBaudrate(x) => {
            assert(f.len() == 2 && n[4] == 48 && n[5] == 49);
            assert(f[1][0] == 48 + x.spec_code());
        },
        PcasCommand::Pcas02SetUpdateRateMs(x) => {
            assert(f.len() == 2 && n[4] == 48 && n[5] == 50);
        },
        PcasCommand::Pcas03SetSentenceRates(x) => {
            assert(f.len() == 15 && n[4] == 48 && n[5] == 51);
        },
        PcasCommand::Pcas04SetGnss(x) => {
            assert(f.len() == 2 && n[4] == 48 && n[5] == 52);
            assert(f[1][0] == 48 + x.spec_code());
        },
        PcasCommand::Pcas10Restart(x) => {
            assert(f.len() == 2 && n[4] == 49 && n[5] == 48);
            assert(f[1][0] == 48 + x.spec_code());
        },
    }
    match c2 {
        PcasCommand::Pcas01SetBaudrate(y) => {
            assert(n[4] == 48 && n[5] == 49);
            assert(f[1][0] == 48 + y.spec_code());
        },
        PcasCommand::Pcas02SetUpdateRateMs(y) => {
            assert(n[4] == 48 && n[5] == 50);
        },
        PcasCommand::Pcas03SetSentenceRates(y) => {
            assert(f.len() == 15 && n[4] == 48 && n[5] == 51);
            if let PcasCommand::Pcas03SetSentenceRates(x) = c1 {
                lemma_rate_text_injective(x.gga, y.gga);
                lemma_rate_text_injective(x.gll, y.gll);
                lemma_rate_text_injective(x.gsa, y.gsa);
                lemma_rate_text_injective(x.gsv, y.gsv);
                lemma_rate_text_injective(x.rmc, y.rmc);
                lemma_rate_text_injective(x.vtg, y.vtg);
                lemma_rate_text_injective(x.zda, y.zda);
                lemma_rate_text_injective(x.ant, y.ant);
            }
        },
        PcasCommand::Pcas04SetGnss(y) => {
            assert(n[4] == 48 && n[5] == 52);
            assert(f[1][0] == 48 + y.spec_code());
        },
        PcasCommand::Pcas10Restart(y) => {
            assert(n[4] == 49 && n[5] == 48);
            assert(f[1][0] == 48 + y.spec_code());
        },
    }
}

} // verus!
