//! The laws of the engine, stated and proved over the wire grammar and the
//! reassembly model: parsing inverts unit encoding, a chain reassembles to
//! the original command whatever the chunking, and the accumulator never
//! exceeds its capacity.

use vstd::prelude::*;

use crate::command::CommandModel;
use crate::reassemble::acc_empty;
use crate::reassemble::fold_step;
use crate::reassemble::fold_units;
use crate::reassemble::AccState;
use crate::reassemble::ReassemblyError;
use crate::status::Status;
use crate::wire::final_unit_len;
use crate::wire::full_wire;
use crate::wire::le_bytes;
use crate::wire::lc_bytes;
use crate::wire::plan;
use crate::wire::le_clamped;
use crate::wire::mode_cap;
use crate::wire::parse_spec;
use crate::wire::unit_bytes;
use crate::wire::unit_of;
use crate::wire::UnitModel;

verus! {

/// Parsing inverts unit encoding: the bytes of any well-formed unit decode
/// to exactly the fields they were built from. The parsed view reports the
/// extended encoding whenever the unit actually used a length field in that
/// form (a bare four-byte header is indistinguishable from a short unit).
pub proof fn lemma_parse_unit(cla: u8, ins: u8, p1: u8, p2: u8, data: Seq<u8>, le: int, ext: bool)
    requires
        data.len() <= mode_cap(ext),
        0 <= le,
        le <= if ext {
            65536int
        } else {
            256int
        },
    ensures
        parse_spec(unit_bytes(cla, ins, p1, p2, data, le, ext)) == Some(
            UnitModel {
                cla,
                ins,
                p1,
                p2,
                data,
                le,
                extended: ext && (data.len() > 0 || le > 0),
            },
        ),
{
    let b = unit_bytes(cla, ins, p1, p2, data, le, ext);
    let n = data.len() as int;
    let lc = lc_bytes(n, ext);
    let lb = le_bytes(le, data.len() > 0, ext);
    let rest = b.skip(4);
    assert(rest =~= lc + data + lb);
    let u = UnitModel { cla, ins, p1, p2, data, le, extended: ext && (data.len() > 0 || le > 0) };
    if !ext {
        if n == 0 {
            if le == 0 {
                assert(rest.len() == 0);
                assert(u.data =~= rest);
                assert(parse_spec(b) =~= Some(u));
            } else {
                assert(rest =~= seq![(le % 256) as u8]);
                assert(rest.len() == 1);
                assert(parse_spec(b) =~= Some(u));
            }
        } else {
            assert(rest[0] == n as u8);
            assert(rest[0] != 0);
            assert(rest.subrange(1, 1 + n) =~= data);
            if le == 0 {
                assert(rest.len() == 1 + n);
                assert(parse_spec(b) =~= Some(u));
            } else {
                assert(rest.len() == 2 + n);
                assert(rest[1 + n] == (le % 256) as u8);
                assert(parse_spec(b) =~= Some(u));
            }
        }
    } else {
        if n == 0 {
            if le == 0 {
                assert(rest.len() == 0);
                assert(u.data =~= rest);
                assert(parse_spec(b) =~= Some(u));
            } else {
                let v = le % 65536;
                assert(rest =~= seq![0u8, (v / 256) as u8, (v % 256) as u8]);
                assert(rest.len() == 3);
                assert((v / 256) as u8 as int * 256 + (v % 256) as u8 as int == v);
                assert(parse_spec(b) =~= Some(u));
            }
        } else {
            assert(rest[0] == 0);
            assert(rest[1] == (n / 256) as u8);
            assert(rest[2] == (n % 256) as u8);
            assert((n / 256) as u8 as int * 256 + (n % 256) as u8 as int == n);
            assert(rest.subrange(3, 3 + n) =~= data);
            if le == 0 {
                assert(rest.len() == 3 + n);
                assert(parse_spec(b) =~= Some(u));
            } else {
                let v = le % 65536;
                assert(rest.len() == 5 + n);
                assert(rest[3 + n] == (v / 256) as u8);
                assert(rest[4 + n] == (v % 256) as u8);
                assert((v / 256) as u8 as int * 256 + (v % 256) as u8 as int == v);
                assert(parse_spec(b) =~= Some(u));
            }
        }
    }
}

/// Round trip without chaining: a command whose payload fits one short unit
/// and whose expected length is at most the short ceiling serializes (with
/// the short form) to a single unit whose parse equals the original command
/// in every logical field, the expected length clamped to at most 256.
pub proof fn lemma_roundtrip_short(m: CommandModel)
    requires
        m.wf(),
        m.data.len() <= 255,
    ensures
        parse_spec(unit_of(m, false, 0, m.data.len() as int, true)) == Some(
            UnitModel {
                cla: m.cla,
                ins: m.ins,
                p1: m.p1,
                p2: m.p2,
                data: m.data,
                le: le_clamped(m.le, false),
                extended: false,
            },
        ),
{
    lemma_parse_unit(m.cla, m.ins, m.p1, m.p2, m.data, le_clamped(m.le, false), false);
    assert(m.data.subrange(0, m.data.len() as int) =~= m.data);
}

/// Extended round trip: serialized in the mode the whole command requires,
/// a command that fits one unit parses back with every logical field equal
/// and no clamping, and the view reports the extended encoding exactly when
/// the payload exceeds one short unit or the expected length exceeds the
/// short ceiling.
pub proof fn lemma_roundtrip_extended(m: CommandModel)
    requires
        m.wf(),
    ensures
        ({
            let ext = m.data.len() > 255 || m.le > 256;
            parse_spec(unit_of(m, ext, 0, m.data.len() as int, true)) == Some(
                UnitModel {
                    cla: m.cla,
                    ins: m.ins,
                    p1: m.p1,
                    p2: m.p2,
                    data: m.data,
                    le: m.le,
                    extended: ext && (m.data.len() > 0 || m.le > 0),
                },
            )
        }),
{
    let ext = m.data.len() > 255 || m.le > 256;
    lemma_parse_unit(m.cla, m.ins, m.p1, m.p2, m.data, le_clamped(m.le, ext), ext);
    assert(m.data.subrange(0, m.data.len() as int) =~= m.data);
    assert(le_clamped(m.le, ext) == m.le);
}

/// The sum of a sequence of chunk sizes.
pub open spec fn parts_sum(parts: Seq<int>) -> int
    decreases parts.len(),
{
    if parts.len() == 0 {
        0
    } else {
        parts[0] + parts_sum(parts.skip(1))
    }
}

/// A partition of `total` payload bytes into consecutive unit chunks: at
/// least one unit, every chunk within the mode's cap, every chunk but the
/// last at least one byte (only the final unit of a chain may be empty).
pub open spec fn valid_partition(parts: Seq<int>, total: int, ext: bool) -> bool {
    &&& parts.len() >= 1
    &&& parts_sum(parts) == total
    &&& forall|i: int|
        0 <= i < parts.len() ==> 0 <= #[trigger] parts[i] <= mode_cap(ext) && (i < parts.len() - 1
            ==> parts[i] >= 1)
}

/// The parsed views of the units that cover `m`'s payload from `sent` on,
/// chunked as `parts`: each unit but the last carries the chaining bit and
/// no expected length; the last carries the command's class and its clamped
/// expected length.
pub open spec fn chain_views(m: CommandModel, ext: bool, parts: Seq<int>, sent: int) -> Seq<
    UnitModel,
>
    decreases parts.len(),
{
    if parts.len() == 0 {
        seq![]
    } else {
        let c = parts[0];
        let last = parts.len() == 1;
        let u = UnitModel {
            cla: if last {
                m.cla
            } else {
                m.cla | 0x10
            },
            ins: m.ins,
            p1: m.p1,
            p2: m.p2,
            data: m.data.subrange(sent, sent + c),
            le: if last {
                le_clamped(m.le, ext)
            } else {
                0
            },
            extended: ext && (c > 0 || (last && le_clamped(m.le, ext) > 0)),
        };
        seq![u] + chain_views(m, ext, parts.skip(1), sent + c)
    }
}

/// Every unit of a chain parses back to its chain view: the bytes of the
/// unit covering `chunk` payload bytes at `sent` decode to exactly the
/// fields `chain_views` ascribes to it.
pub proof fn lemma_unit_roundtrip(m: CommandModel, ext: bool, sent: int, chunk: int, last: bool)
    requires
        m.wf(),
        0 <= sent,
        0 <= chunk,
        sent + chunk <= m.data.len(),
        chunk <= mode_cap(ext),
    ensures
        parse_spec(unit_of(m, ext, sent, chunk, last)) == Some(
            UnitModel {
                cla: if last {
                    m.cla
                } else {
                    (m.cla | 0x10) as u8
                },
                ins: m.ins,
                p1: m.p1,
                p2: m.p2,
                data: m.data.subrange(sent, sent + chunk),
                le: if last {
                    le_clamped(m.le, ext)
                } else {
                    0
                },
                extended: ext && (chunk > 0 || (last && le_clamped(m.le, ext) > 0)),
            },
        ),
{
    let cla_u = if last {
        m.cla
    } else {
        (m.cla | 0x10) as u8
    };
    let le_u = if last {
        le_clamped(m.le, ext)
    } else {
        0
    };
    lemma_parse_unit(cla_u, m.ins, m.p1, m.p2, m.data.subrange(sent, sent + chunk), le_u, ext);
}

/// Chaining correctness and chunking invariance, generalized for induction:
/// folding the chain views of any valid partition of the remaining payload
/// into an incomplete accumulator that agrees on the header appends exactly
/// the remaining payload and completes with the clamped expected length —
/// whatever the partition.
pub proof fn lemma_chain_fold(
    m: CommandModel,
    ext: bool,
    parts: Seq<int>,
    sent: int,
    s: AccState,
    cap: int,
)
    requires
        m.wf(),
        m.cla & 0x10 == 0,
        0 <= sent <= m.data.len(),
        valid_partition(parts, m.data.len() - sent, ext),
        !s.complete,
        s.started ==> s.cla == m.cla && s.ins == m.ins && s.p1 == m.p1 && s.p2 == m.p2,
        s.data.len() + (m.data.len() - sent) <= cap,
    ensures
        fold_units(s, chain_views(m, ext, parts, sent), cap) == Ok::<AccState, ReassemblyError>(
            AccState {
                started: true,
                complete: true,
                cla: m.cla,
                ins: m.ins,
                p1: m.p1,
                p2: m.p2,
                data: s.data + m.data.subrange(sent, m.data.len() as int),
                le: le_clamped(m.le, ext),
            },
        ),
    decreases parts.len(),
{
    let c = parts[0];
    let us = chain_views(m, ext, parts, sent);
    let u = us[0];
    assert(parts_sum(parts.skip(1)) == parts_sum(parts) - parts[0]);
    if parts.len() == 1 {
        assert(parts_sum(parts.skip(1)) == 0);
        assert(c == m.data.len() - sent);
        assert(u.cla == m.cla);
        let uc = u.cla;
        let mc = m.cla;
        assert(uc & 0xef == mc && uc & 0x10 == 0) by (bit_vector)
            requires
                uc == mc,
                mc & 0x10 == 0,
        ;
        assert(!u.chaining());
        assert(u.data == m.data.subrange(sent, sent + c));
        assert(s.data.len() + u.data.len() <= cap);
        assert(fold_step(s, u, cap) is Ok);
        let s2 = fold_step(s, u, cap)->Ok_0;
        assert(us.skip(1) =~= Seq::<UnitModel>::empty());
        assert(fold_units(s2, us.skip(1), cap) == Ok::<AccState, ReassemblyError>(s2));
        assert(fold_units(s, us, cap) == Ok::<AccState, ReassemblyError>(s2));
        assert(s2.data =~= s.data + m.data.subrange(sent, m.data.len() as int));
        assert(fold_units(s, us, cap) == Ok::<AccState, ReassemblyError>(
            AccState {
                started: true,
                complete: true,
                cla: m.cla,
                ins: m.ins,
                p1: m.p1,
                p2: m.p2,
                data: s.data + m.data.subrange(sent, m.data.len() as int),
                le: le_clamped(m.le, ext),
            },
        ));
    } else {
        assert(parts[1] == parts.skip(1)[0]);
        assert(c >= 1);
        assert(u.cla == (m.cla | 0x10) as u8);
        let uc = u.cla;
        let mc = m.cla;
        assert(uc & 0xef == mc && uc & 0x10 != 0) by (bit_vector)
            requires
                uc == (mc | 0x10) as u8,
                mc & 0x10 == 0,
        ;
        assert(u.chaining());
        assert(parts_sum(parts.skip(1)) >= 0) by {
            lemma_parts_sum_nonneg(parts.skip(1));
        }
        assert(sent + c <= m.data.len());
        let s2 = fold_step(s, u, cap)->Ok_0;
        assert(!s2.complete);
        assert(valid_partition(parts.skip(1), m.data.len() - (sent + c), ext));
        lemma_chain_fold(m, ext, parts.skip(1), sent + c, s2, cap);
        assert(us.skip(1) =~= chain_views(m, ext, parts.skip(1), sent + c));
        assert(s2.data + m.data.subrange(sent + c, m.data.len() as int) =~= s.data
            + m.data.subrange(sent, m.data.len() as int));
        assert(fold_units(s, us, cap) == fold_units(s2, us.skip(1), cap));
    }
}

/// A sum of nonnegative chunks is nonnegative.
pub proof fn lemma_parts_sum_nonneg(parts: Seq<int>)
    requires
        forall|i: int| 0 <= i < parts.len() ==> #[trigger] parts[i] >= 0,
    ensures
        parts_sum(parts) >= 0,
    decreases parts.len(),
{
    if parts.len() > 0 {
        lemma_parts_sum_nonneg(parts.skip(1));
    }
}

/// Chaining correctness: reassembling the chain views of any valid
/// partition of a command's payload from an empty accumulator of sufficient
/// capacity yields the command's own header, its whole payload, and its
/// clamped expected length.
pub proof fn lemma_chain_reassembly(m: CommandModel, ext: bool, parts: Seq<int>, cap: int)
    requires
        m.wf(),
        m.cla & 0x10 == 0,
        valid_partition(parts, m.data.len() as int, ext),
        m.data.len() <= cap,
    ensures
        fold_units(acc_empty(), chain_views(m, ext, parts, 0), cap) == Ok::<
            AccState,
            ReassemblyError,
        >(
            AccState {
                started: true,
                complete: true,
                cla: m.cla,
                ins: m.ins,
                p1: m.p1,
                p2: m.p2,
                data: m.data,
                le: le_clamped(m.le, ext),
            },
        ),
{
    lemma_chain_fold(m, ext, parts, 0, acc_empty(), cap);
    assert(acc_empty().data + m.data.subrange(0, m.data.len() as int) =~= m.data);
}

/// Arbitrary chunking invariance: two serializations of one command that
/// differ only in how writer capacities chunked the payload reassemble to
/// the same state — capacity only affects how many units are produced,
/// never the logical result.
pub proof fn lemma_chunking_invariance(
    m: CommandModel,
    ext: bool,
    parts1: Seq<int>,
    parts2: Seq<int>,
    cap: int,
)
    requires
        m.wf(),
        m.cla & 0x10 == 0,
        valid_partition(parts1, m.data.len() as int, ext),
        valid_partition(parts2, m.data.len() as int, ext),
        m.data.len() <= cap,
    ensures
        fold_units(acc_empty(), chain_views(m, ext, parts1, 0), cap) == fold_units(
            acc_empty(),
            chain_views(m, ext, parts2, 0),
            cap,
        ),
{
    lemma_chain_reassembly(m, ext, parts1, cap);
    lemma_chain_reassembly(m, ext, parts2, cap);
}

/// The shape of a chain: it covers the partition unit for unit, every unit
/// agrees with the command's instruction and parameters, the chaining bit is
/// set on every unit but the last and only there, every unit's payload stays
/// within the mode's cap, and without extended support no unit reports the
/// extended encoding.
pub proof fn lemma_chain_views_shape(m: CommandModel, ext: bool, parts: Seq<int>, sent: int)
    requires
        m.wf(),
        m.cla & 0x10 == 0,
        0 <= sent,
        sent + parts_sum(parts) <= m.data.len(),
        forall|i: int| 0 <= i < parts.len() ==> 0 <= #[trigger] parts[i] <= mode_cap(ext),
    ensures
        chain_views(m, ext, parts, sent).len() == parts.len(),
        forall|i: int|
            0 <= i < parts.len() ==> {
                let u = #[trigger] chain_views(m, ext, parts, sent)[i];
                &&& u.data.len() == parts[i]
                &&& u.data.len() <= mode_cap(ext)
                &&& u.ins == m.ins
                &&& u.p1 == m.p1
                &&& u.p2 == m.p2
                &&& (u.chaining() <==> i < parts.len() - 1)
                &&& (u.extended ==> ext)
            },
    decreases parts.len(),
{
    if parts.len() > 0 {
        let us = chain_views(m, ext, parts, sent);
        let u = us[0];
        let mc = m.cla;
        assert(mc & 0x10 == 0 && (mc | 0x10) as u8 & 0x10 != 0) by (bit_vector)
            requires
                mc & 0x10 == 0,
        ;
        assert(parts_sum(parts.skip(1)) == parts_sum(parts) - parts[0]);
        lemma_parts_sum_nonneg(parts.skip(1));
        assert(u.data.len() == parts[0]);
        assert(u.chaining() <==> parts.len() > 1);
        lemma_chain_views_shape(m, ext, parts.skip(1), sent + parts[0]);
        assert forall|i: int| 0 < i < parts.len() implies {
            let u2 = #[trigger] us[i];
            &&& u2.data.len() == parts[i]
            &&& u2.data.len() <= mode_cap(ext)
            &&& u2.ins == m.ins
            &&& u2.p1 == m.p1
            &&& u2.p2 == m.p2
            &&& (u2.chaining() <==> i < parts.len() - 1)
            &&& (u2.extended ==> ext)
        } by {
            assert(us[i] == chain_views(m, ext, parts.skip(1), sent + parts[0])[i - 1]);
            assert(parts[i] == parts.skip(1)[i - 1]);
        }
    }
}

/// The planner always yields a sound unit: the chunk lies within the
/// remaining payload and the mode's cap, a final unit covers the whole
/// remainder, and a chained unit always carries at least one payload byte.
pub proof fn lemma_plan_valid(rem: int, le: int, ext: bool, avail: int)
    requires
        0 <= rem,
    ensures
        0 <= plan(rem, le, ext, avail).0 <= rem,
        plan(rem, le, ext, avail).0 <= mode_cap(ext),
        plan(rem, le, ext, avail).1 ==> plan(rem, le, ext, avail).0 == rem,
        !plan(rem, le, ext, avail).1 ==> plan(rem, le, ext, avail).0 >= 1,
{
}

/// With capacity for the whole final unit, the planner emits the command's
/// entire remainder as one final unit: a writer at least as large as the
/// unit's total length yields exactly one unit.
pub proof fn lemma_plan_whole(rem: int, le: int, ext: bool, avail: int)
    requires
        0 <= rem <= mode_cap(ext),
        final_unit_len(rem, le, ext) <= avail,
    ensures
        plan(rem, le, ext, avail) == (rem, true),
{
}

/// The status-word mapping inverts itself: every well-formed status word
/// decodes back from its own code.
pub proof fn lemma_status_roundtrip(s: Status)
    requires
        s.wf(),
    ensures
        Status::spec_decode(s.spec_code()) == Some(s),
{
    match s {
        Status::MoreAvailable(x) => {
            assert(0x6100 <= s.spec_code() <= 0x61ff);
            assert((s.spec_code() - 0x6100) as u8 == x);
        },
        Status::RemainingRetries(x) => {
            assert(x & 0xf == x) by (bit_vector)
                requires
                    x < 16,
            ;
            assert(0x63c0 <= s.spec_code() <= 0x63cf);
            assert((s.spec_code() - 0x63c0) as u8 == x);
        },
        _ => {},
    }
}

/// Every mapped code round-trips: when a 16-bit code decodes to a status
/// word, that word is well formed and encodes back to the same code.
pub proof fn lemma_code_roundtrip(code: u16)
    ensures
        match Status::spec_decode(code) {
            Some(s) => s.wf() && s.spec_code() == code,
            None => true,
        },
{
    if 0x63c0 <= code && code <= 0x63cf {
        let x = (code - 0x63c0) as u8;
        assert(x & 0xf == x) by (bit_vector)
            requires
                x < 16,
        ;
    }
}

/// A command that fits one unit of its mode serializes, at unbounded
/// capacity, to exactly that single final unit.
pub proof fn lemma_full_wire_single(m: CommandModel, ext: bool)
    requires
        m.data.len() <= mode_cap(ext),
    ensures
        full_wire(m, ext, 0) == unit_of(m, ext, 0, m.data.len() as int, true),
{
}

/// Generalization of the capacity-overflow law for induction: folding a
/// chain whose remaining payload overruns what the capacity still admits
/// fails with `CapacityExceeded` — never by silent truncation.
pub proof fn lemma_chain_overflow_fold(
    m: CommandModel,
    ext: bool,
    parts: Seq<int>,
    sent: int,
    s: AccState,
    cap: int,
)
    requires
        m.wf(),
        m.cla & 0x10 == 0,
        0 <= sent <= m.data.len(),
        valid_partition(parts, m.data.len() - sent, ext),
        !s.complete,
        s.started ==> s.cla == m.cla && s.ins == m.ins && s.p1 == m.p1 && s.p2 == m.p2,
        s.data.len() + (m.data.len() - sent) > cap,
    ensures
        fold_units(s, chain_views(m, ext, parts, sent), cap) == Err::<AccState, ReassemblyError>(
            ReassemblyError::CapacityExceeded,
        ),
    decreases parts.len(),
{
    let c = parts[0];
    let us = chain_views(m, ext, parts, sent);
    let u = us[0];
    assert(parts_sum(parts.skip(1)) == parts_sum(parts) - parts[0]);
    lemma_parts_sum_nonneg(parts.skip(1));
    let uc = u.cla;
    let mc = m.cla;
    if parts.len() == 1 {
        assert(c == m.data.len() - sent);
        assert(uc & 0xef == mc) by (bit_vector)
            requires
                uc == mc,
                mc & 0x10 == 0,
        ;
        assert(s.data.len() + u.data.len() > cap);
        assert(fold_step(s, u, cap) == Err::<AccState, ReassemblyError>(
            ReassemblyError::CapacityExceeded,
        ));
    } else {
        assert(parts[1] == parts.skip(1)[0]);
        assert(uc & 0xef == mc && uc & 0x10 != 0) by (bit_vector)
            requires
                uc == (mc | 0x10) as u8,
                mc & 0x10 == 0,
        ;
        if s.data.len() + u.data.len() > cap {
            assert(fold_step(s, u, cap) == Err::<AccState, ReassemblyError>(
                ReassemblyError::CapacityExceeded,
            ));
        } else {
            let s2 = fold_step(s, u, cap)->Ok_0;
            assert(!s2.complete);
            assert(valid_partition(parts.skip(1), m.data.len() - (sent + c), ext));
            lemma_chain_overflow_fold(m, ext, parts.skip(1), sent + c, s2, cap);
            assert(us.skip(1) =~= chain_views(m, ext, parts.skip(1), sent + c));
        }
    }
}

/// Capacity overflow: a chain whose total payload exceeds the accumulator's
/// capacity fails with `CapacityExceeded`, whatever the partition.
pub proof fn lemma_capacity_overflow(m: CommandModel, ext: bool, parts: Seq<int>, cap: int)
    requires
        m.wf(),
        m.cla & 0x10 == 0,
        valid_partition(parts, m.data.len() as int, ext),
        0 <= cap < m.data.len(),
    ensures
        fold_units(acc_empty(), chain_views(m, ext, parts, 0), cap) == Err::<
            AccState,
            ReassemblyError,
        >(ReassemblyError::CapacityExceeded),
{
    lemma_chain_overflow_fold(m, ext, parts, 0, acc_empty(), cap);
}

/// The maximal partition: every chunk takes the mode's cap, the remainder
/// goes to the final unit.
pub open spec fn max_parts(rem: int, cap: int) -> Seq<int>
    decreases rem,
    when cap >= 1
{
    if rem <= cap {
        seq![rem]
    } else {
        seq![cap] + max_parts(rem - cap, cap)
    }
}

/// The concatenated bytes of the units that cover `m`'s payload from `sent`
/// on, chunked as `parts`.
pub open spec fn chain_bytes(m: CommandModel, ext: bool, parts: Seq<int>, sent: int) -> Seq<u8>
    decreases parts.len(),
{
    if parts.len() == 0 {
        seq![]
    } else {
        unit_of(m, ext, sent, parts[0], parts.len() == 1) + chain_bytes(
            m,
            ext,
            parts.skip(1),
            sent + parts[0],
        )
    }
}

/// The maximal partition is a valid partition of the remainder.
pub proof fn lemma_max_parts_valid(rem: int, ext: bool)
    requires
        0 <= rem,
    ensures
        valid_partition(max_parts(rem, mode_cap(ext)), rem, ext),
    decreases rem,
{
    let cap = mode_cap(ext);
    let ps = max_parts(rem, cap);
    if rem <= cap {
        assert(ps =~= seq![rem]);
        assert(ps.skip(1) =~= Seq::<int>::empty());
        assert(parts_sum(ps.skip(1)) == 0);
        assert(parts_sum(ps) == ps[0] + parts_sum(ps.skip(1)));
    } else {
        lemma_max_parts_valid(rem - cap, ext);
        let t = max_parts(rem - cap, cap);
        assert(ps =~= seq![cap] + t);
        assert(ps.skip(1) =~= t);
        assert(parts_sum(ps) == cap + parts_sum(t));
        assert forall|i: int|
            0 <= i < ps.len() implies 0 <= #[trigger] ps[i] <= cap && (i < ps.len() - 1 ==> ps[i]
            >= 1) by {
            if i > 0 {
                assert(ps[i] == t[i - 1]);
            }
        }
    }
}

/// At unbounded capacity the wire stream is exactly the concatenation of the
/// maximal partition's units.
pub proof fn lemma_full_wire_chain_bytes(m: CommandModel, ext: bool, sent: int)
    requires
        0 <= sent <= m.data.len(),
    ensures
        full_wire(m, ext, sent) == chain_bytes(
            m,
            ext,
            max_parts(m.data.len() - sent, mode_cap(ext)),
            sent,
        ),
    decreases m.data.len() - sent,
{
    let cap = mode_cap(ext);
    let rem = m.data.len() - sent;
    let ps = max_parts(rem, cap);
    if rem <= cap {
        assert(ps =~= seq![rem]);
        assert(ps.skip(1) =~= Seq::<int>::empty());
        assert(chain_bytes(m, ext, ps.skip(1), sent + rem) =~= Seq::<u8>::empty());
        assert(chain_bytes(m, ext, ps, sent) == unit_of(m, ext, sent, ps[0], true) + chain_bytes(
            m,
            ext,
            ps.skip(1),
            sent + ps[0],
        ));
        assert(chain_bytes(m, ext, ps, sent) =~= unit_of(m, ext, sent, rem, true));
    } else {
        lemma_full_wire_chain_bytes(m, ext, sent + cap);
        let t = max_parts(rem - cap, cap);
        assert(ps =~= seq![cap] + t);
        assert(ps.skip(1) =~= t);
        assert(ps.len() > 1);
        assert(chain_bytes(m, ext, ps, sent) =~= unit_of(m, ext, sent, cap, false) + chain_bytes(
            m,
            ext,
            t,
            sent + cap,
        ));
    }
}

/// The whole send-and-receive loop, at unbounded writer capacity: the wire
/// stream a command serializes to splits into the units of the maximal
/// partition, and folding their parsed views into an empty accumulator of
/// sufficient capacity reproduces the command's header, payload and clamped
/// expected length.
pub proof fn lemma_serialize_reassemble(m: CommandModel, ext: bool, cap: int)
    requires
        m.wf(),
        m.cla & 0x10 == 0,
        m.data.len() <= cap,
    ensures
        ({
            let parts = max_parts(m.data.len() as int, mode_cap(ext));
            &&& valid_partition(parts, m.data.len() as int, ext)
            &&& full_wire(m, ext, 0) == chain_bytes(m, ext, parts, 0)
            &&& fold_units(acc_empty(), chain_views(m, ext, parts, 0), cap) == Ok::<
                AccState,
                ReassemblyError,
            >(
                AccState {
                    started: true,
                    complete: true,
                    cla: m.cla,
                    ins: m.ins,
                    p1: m.p1,
                    p2: m.p2,
                    data: m.data,
                    le: le_clamped(m.le, ext),
                },
            )
        }),
{
    lemma_max_parts_valid(m.data.len() as int, ext);
    lemma_full_wire_chain_bytes(m, ext, 0);
    lemma_chain_reassembly(m, ext, max_parts(m.data.len() as int, mode_cap(ext)), cap);
}

/// Capacity is never silently exceeded: whenever folding a sequence of
/// views succeeds, the reassembled payload lies within the capacity.
pub proof fn lemma_reassembly_capacity(s: AccState, us: Seq<UnitModel>, cap: int, s2: AccState)
    requires
        s.data.len() <= cap,
        fold_units(s, us, cap) == Ok::<AccState, ReassemblyError>(s2),
    ensures
        s2.data.len() <= cap,
    decreases us.len(),
{
    if us.len() > 0 {
        let mid = fold_step(s, us[0], cap)->Ok_0;
        lemma_reassembly_capacity(mid, us.skip(1), cap, s2);
    }
}

} // verus!
