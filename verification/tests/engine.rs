use iso7816::BufferWriter;
use iso7816::ChainStatus;
use iso7816::Class;
use iso7816::Command;
use iso7816::CommandView;
use iso7816::Reassembler;
use iso7816::ReassemblyError;
use iso7816::SerializeError;
use iso7816::Writer;

fn cmd(class: u8, ins: u8, p1: u8, p2: u8, data: Vec<u8>, le: u32) -> Command {
    Command::new(Class::try_from(class).unwrap(), ins, p1, p2, data, le)
}

/// Serializes a command to completion, one writer per call, the capacities
/// taken from `caps` (the last one repeated); returns each writer's bytes.
fn run(c: Command, extended_supported: bool, caps: &[usize]) -> Vec<Vec<u8>> {
    let mut bufs = Vec::new();
    let mut w = BufferWriter::new(caps[0]);
    let mut cont = match c.serialize_into(&mut w, extended_supported) {
        Ok(Ok(())) => {
            bufs.push(w.into_bytes());
            return bufs;
        }
        Ok(Err(k)) => {
            bufs.push(w.into_bytes());
            k
        }
        Err(_) => panic!("writer failed"),
    };
    let mut i = 1usize;
    loop {
        assert!(i < 100000, "serialization did not terminate");
        let cap = caps[if i < caps.len() { i } else { caps.len() - 1 }];
        let mut w = BufferWriter::new(cap);
        match cont.serialize_into(&mut w) {
            Ok(Ok(())) => {
                bufs.push(w.into_bytes());
                return bufs;
            }
            Ok(Err(k)) => {
                bufs.push(w.into_bytes());
                cont = k;
            }
            Err(_) => panic!("writer failed"),
        }
        i += 1;
    }
}

/// Reassembles a slice of complete unit byte strings.
fn reassemble<const N: usize>(units: &[&[u8]]) -> Reassembler<N> {
    let mut acc = Reassembler::<N>::new();
    for (i, u) in units.iter().enumerate() {
        let v = CommandView::parse(u).unwrap();
        let st = acc.extend(&v).unwrap();
        if i + 1 == units.len() {
            assert_eq!(st, ChainStatus::Complete);
        } else {
            assert_eq!(st, ChainStatus::Continuing);
        }
    }
    acc
}

#[test]
fn short_roundtrip() {
    let c = cmd(0x00, 0xb0, 0x01, 0x02, vec![1, 2, 3], 10);
    let bufs = run(c, false, &[4096]);
    assert_eq!(bufs.len(), 1);
    assert_eq!(bufs[0], vec![0x00, 0xb0, 0x01, 0x02, 0x03, 1, 2, 3, 10]);
    let v = CommandView::parse(&bufs[0]).unwrap();
    assert_eq!(v.cla, 0x00);
    assert_eq!(v.ins, 0xb0);
    assert_eq!(v.p1, 0x01);
    assert_eq!(v.p2, 0x02);
    assert_eq!(v.data, &[1, 2, 3]);
    assert_eq!(v.le, 10);
    assert!(!v.extended());
    assert!(!v.chaining());
}

#[test]
fn short_le_256_encodes_as_zero() {
    let c = cmd(0x00, 0xb0, 0, 0, vec![7], 256);
    let bufs = run(c, false, &[4096]);
    assert_eq!(bufs[0], vec![0x00, 0xb0, 0x00, 0x00, 0x01, 7, 0x00]);
    let v = CommandView::parse(&bufs[0]).unwrap();
    assert_eq!(v.le, 256);
}

#[test]
fn short_le_clamped_without_extended_support() {
    let c = cmd(0x00, 0xb0, 0, 0, vec![7], 700);
    let bufs = run(c, false, &[4096]);
    assert_eq!(bufs.len(), 1);
    let v = CommandView::parse(&bufs[0]).unwrap();
    assert_eq!(v.le, 256);
    assert!(!v.extended());
}

#[test]
fn header_only_unit() {
    let c = cmd(0x00, 0xa4, 0, 0, vec![], 0);
    let bufs = run(c, false, &[4096]);
    assert_eq!(bufs[0], vec![0x00, 0xa4, 0x00, 0x00]);
    let v = CommandView::parse(&bufs[0]).unwrap();
    assert_eq!(v.data, &[] as &[u8]);
    assert_eq!(v.le, 0);
}

#[test]
fn extended_roundtrip() {
    let data: Vec<u8> = (0..300u32).map(|i| (i % 256) as u8).collect();
    let c = cmd(0x80, 0xd6, 0x12, 0x34, data.clone(), 65536);
    let bufs = run(c, true, &[8192]);
    assert_eq!(bufs.len(), 1);
    let mut expected = vec![0x80, 0xd6, 0x12, 0x34, 0x00, 0x01, 0x2c];
    expected.extend_from_slice(&data);
    expected.extend_from_slice(&[0x00, 0x00]);
    assert_eq!(bufs[0], expected);
    let v = CommandView::parse(&bufs[0]).unwrap();
    assert!(v.extended());
    assert_eq!(v.data, &data[..]);
    assert_eq!(v.le, 65536);
}

#[test]
fn extended_le_without_payload() {
    let c = cmd(0x00, 0xc0, 0, 0, vec![], 5000);
    let bufs = run(c, true, &[4096]);
    assert_eq!(bufs[0], vec![0x00, 0xc0, 0x00, 0x00, 0x00, 0x13, 0x88]);
    let v = CommandView::parse(&bufs[0]).unwrap();
    assert!(v.extended());
    assert_eq!(v.le, 5000);
    assert_eq!(v.data, &[] as &[u8]);
}

#[test]
fn chaining_300_byte_select() {
    let c = cmd(0x00, 0xa4, 0x04, 0x00, vec![0; 300], 0);
    let bufs = run(c, false, &[4096]);
    assert_eq!(bufs.len(), 2);
    let mut unit1 = vec![0x10, 0xa4, 0x04, 0x00, 0xff];
    unit1.extend_from_slice(&[0; 255]);
    assert_eq!(bufs[0], unit1);
    let mut unit2 = vec![0x00, 0xa4, 0x04, 0x00, 0x2d];
    unit2.extend_from_slice(&[0; 45]);
    assert_eq!(bufs[1], unit2);
    let acc = reassemble::<4096>(&[&bufs[0], &bufs[1]]);
    assert_eq!(acc.data().as_slice(), &[0u8; 300][..]);
    assert_eq!(acc.class_byte(), 0x00);
    assert_eq!(acc.instruction(), 0xa4);
    assert_eq!(acc.p1(), 0x04);
    assert_eq!(acc.p2(), 0x00);
    assert_eq!(acc.expected_len(), 0);
    assert!(acc.is_complete());
}

#[test]
fn chained_units_stay_short() {
    let data: Vec<u8> = (0..600u32).map(|i| (i % 251) as u8).collect();
    let c = cmd(0x04, 0xd6, 0, 0, data.clone(), 700);
    let bufs = run(c, false, &[200]);
    assert!(bufs.len() > 1);
    for (i, b) in bufs.iter().enumerate() {
        let v = CommandView::parse(b).unwrap();
        assert!(v.data.len() <= 255);
        assert!(!v.extended());
        assert_eq!(v.chaining(), i + 1 < bufs.len());
    }
    let units: Vec<&[u8]> = bufs.iter().map(|b| b.as_slice()).collect();
    let acc = reassemble::<4096>(&units);
    assert_eq!(acc.data().as_slice(), &data[..]);
    assert_eq!(acc.expected_len(), 256);
}

#[test]
fn chunking_invariance() {
    let data: Vec<u8> = (0..300u32).map(|i| (i % 256) as u8).collect();
    let one = run(cmd(0x00, 0xa4, 1, 2, data.clone(), 700), false, &[4096]);
    let mid = run(cmd(0x00, 0xa4, 1, 2, data.clone(), 700), false, &[128]);
    let tiny = run(cmd(0x00, 0xa4, 1, 2, data.clone(), 700), false, &[4]);

    let units_one: Vec<&[u8]> = one.iter().map(|b| b.as_slice()).collect();
    let acc_one = reassemble::<4096>(&units_one);

    // With capacity 128 every call still carries one complete unit.
    assert!(mid.len() > 2);
    let units_mid: Vec<&[u8]> = mid.iter().map(|b| b.as_slice()).collect();
    let acc_mid = reassemble::<4096>(&units_mid);

    // With capacity 4 the maximal units are streamed across writers: the
    // concatenated stream splits at the same boundaries as the single-writer
    // run.
    let stream: Vec<u8> = tiny.iter().flatten().copied().collect();
    let mut units_tiny: Vec<&[u8]> = Vec::new();
    let mut at = 0usize;
    for u in &one {
        units_tiny.push(&stream[at..at + u.len()]);
        at += u.len();
    }
    assert_eq!(at, stream.len());
    let acc_tiny = reassemble::<4096>(&units_tiny);

    for acc in [&acc_one, &acc_mid, &acc_tiny] {
        assert_eq!(acc.data().as_slice(), &data[..]);
        assert_eq!(acc.class_byte(), 0x00);
        assert_eq!(acc.instruction(), 0xa4);
        assert_eq!(acc.p1(), 1);
        assert_eq!(acc.p2(), 2);
        assert_eq!(acc.expected_len(), 256);
        assert!(acc.is_complete());
    }
}

#[test]
fn capacity_overflow_is_reported() {
    let mut unit1 = vec![0x10, 0x00, 0x00, 0x00, 0x08];
    unit1.extend_from_slice(&[1; 8]);
    let mut unit2 = vec![0x00, 0x00, 0x00, 0x00, 0x08];
    unit2.extend_from_slice(&[2; 8]);
    let v1 = CommandView::parse(&unit1).unwrap();
    let v2 = CommandView::parse(&unit2).unwrap();
    let mut acc = Reassembler::<10>::new();
    assert_eq!(acc.extend(&v1), Ok(ChainStatus::Continuing));
    assert_eq!(acc.extend(&v2), Err(ReassemblyError::CapacityExceeded));
    assert_eq!(acc.data().len(), 8);
    assert!(!acc.is_complete());
}

#[test]
fn pathological_class_rejected_before_output() {
    for (le, ext) in [(0u32, false), (700, false), (0, true), (70000 - 65536, true)] {
        let c = cmd(0b1110_1111, 0xa4, 0x04, 0x00, vec![9; 300], le);
        let mut w = BufferWriter::new(4096);
        let r = c.serialize_into(&mut w, ext);
        assert!(matches!(r, Err(SerializeError::InvalidClass)));
        assert!(w.bytes().is_empty());
    }
}

#[test]
fn class_validation() {
    assert!(Class::try_from(0xff).is_err());
    assert!(Class::try_from(0x10).is_err());
    assert!(Class::try_from(0x90).is_err());
    assert_eq!(Class::try_from(0xef).unwrap().byte(), 0xef);
    assert_eq!(Class::try_from(0x80).unwrap().byte(), 0x80);
    assert_eq!(Class::try_from(0x00).unwrap().byte(), 0x00);
}

#[test]
fn header_mismatch_is_reported() {
    let mut unit1 = vec![0x10, 0xa4, 0x00, 0x00, 0x02];
    unit1.extend_from_slice(&[1; 2]);
    let unit2 = vec![0x00, 0xb0, 0x00, 0x00, 0x01, 3];
    let v1 = CommandView::parse(&unit1).unwrap();
    let v2 = CommandView::parse(&unit2).unwrap();
    let mut acc = Reassembler::<100>::new();
    assert_eq!(acc.extend(&v1), Ok(ChainStatus::Continuing));
    assert_eq!(acc.extend(&v2), Err(ReassemblyError::HeaderMismatch));
}

#[test]
fn extend_after_complete_is_reported() {
    let unit = vec![0x00, 0xa4, 0x00, 0x00];
    let v = CommandView::parse(&unit).unwrap();
    let mut acc = Reassembler::<100>::new();
    assert_eq!(acc.extend(&v), Ok(ChainStatus::Complete));
    assert_eq!(acc.extend(&v), Err(ReassemblyError::AlreadyComplete));
}

#[test]
fn parse_rejects_malformed_units() {
    assert!(CommandView::parse(&[0x00, 0xa4, 0x00]).is_err());
    assert!(CommandView::parse(&[0x00, 0xa4, 0x00, 0x00, 0x05, 1, 2]).is_err());
    assert!(CommandView::parse(&[0x00, 0xa4, 0x00, 0x00, 0x01, 1, 2, 3]).is_err());
    assert!(CommandView::parse(&[0x00, 0xa4, 0x00, 0x00, 0x00, 0x07]).is_err());
    assert!(CommandView::parse(&[0x00, 0xa4, 0x00, 0x00, 0x00, 0x00, 0x00, 0x09]).is_err());
    assert!(CommandView::parse(&[0x00, 0xa4, 0x00, 0x00, 0x00, 0x00, 0x02, 0x09]).is_err());
}

#[test]
fn serialize_to_vec_matches_streamed_units() {
    let c = cmd(0x00, 0xa4, 0x04, 0x00, vec![0; 300], 0);
    let whole = c.serialize_to_vec(false).unwrap();
    let bufs = run(cmd(0x00, 0xa4, 0x04, 0x00, vec![0; 300], 0), false, &[4096]);
    let stream: Vec<u8> = bufs.iter().flatten().copied().collect();
    assert_eq!(whole, stream);

    let small = cmd(0x00, 0xb0, 1, 2, vec![1, 2, 3], 10);
    assert_eq!(
        small.serialize_to_vec(false).unwrap(),
        vec![0x00, 0xb0, 0x01, 0x02, 0x03, 1, 2, 3, 10]
    );

    let bad = cmd(0xef, 0xb0, 0, 0, vec![], 0);
    assert!(bad.serialize_to_vec(false).is_err());
}

#[test]
fn writer_reports_short_count() {
    let mut w = BufferWriter::new(3);
    assert_eq!(w.remaining_len(), 3);
    assert_eq!(w.write(&[1, 2, 3, 4, 5]), Ok(3));
    assert_eq!(w.remaining_len(), 0);
    assert_eq!(w.write(&[6]), Ok(0));
    assert_eq!(w.bytes().as_slice(), &[1, 2, 3]);
}
