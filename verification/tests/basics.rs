use photon::quic::header::{datagram_step, long_header_at};
use photon::quic::{read_varint, write_varint};

#[test]
fn one_is_one() {
    assert!(1 == 1);
}

#[test]
fn two_is_two() {
    assert!(2 == 2)
}

#[test]
fn three_is_three() {
    assert!(3 == 3);
}

#[test]
fn four_is_four() {
    assert!(4 == 4);
}

#[test]
fn five_is_five() {
    assert_eq!(5, 5);
}

#[test]
fn num_sizes() {
    let int8: u8 = 0;
    let int16: u16 = 0;
    let int32: u32 = 0;
    let int64: u64 = 0;
    let intptr: usize = 0;

    assert_eq!(int8.to_be_bytes().len(), 1);
    assert_eq!(int16.to_be_bytes().len(), 2);
    assert_eq!(int32.to_be_bytes().len(), 4);
    assert_eq!(int64.to_be_bytes().len(), 8);
    assert_eq!(intptr.to_be_bytes().len(), usize::BITS as usize / 8);
}

#[test]
fn varints() {
    let buf = [0x3f, 12, 0x41, 255, 0x80, 0, 255, 255, 0xe0, 0, 0, 0, 0, 0, 0, 1];
    let mut index = 0;

    assert_eq!(read_varint(&buf, &mut index), 63);
    assert_eq!(read_varint(&buf, &mut index), 12);
    assert_eq!(read_varint(&buf, &mut index), 511);
    assert_eq!(read_varint(&buf, &mut index), 65535);
    assert_eq!(read_varint(&buf, &mut index), 2305843009213693953);

    assert_eq!(index, 16);

    let mut buf2 = [0; 16];
    let mut index2 = 0;

    write_varint(&mut buf2, &mut index2, 63);
    write_varint(&mut buf2, &mut index2, 12);
    write_varint(&mut buf2, &mut index2, 511);
    write_varint(&mut buf2, &mut index2, 65535);
    write_varint(&mut buf2, &mut index2, 2305843009213693953);

    assert_eq!(index2, 16);
    assert_eq!(buf, buf2);
}

#[test]
fn datagram_packets_are_walked() {
    // Initial: type 0, version 1, dcid aa bb, scid cc, empty token, length 2.
    let initial = [0xc3, 0, 0, 0, 1, 2, 0xaa, 0xbb, 1, 0xcc, 0x00, 0x02, 0x11, 0x22];
    let header = long_header_at(&initial, 0).unwrap();
    assert_eq!(header.packet_type, 0);
    assert_eq!(header.pn_len, 3);
    assert_eq!(header.version, 1);
    assert_eq!(header.dcid, vec![0xaa, 0xbb]);
    assert_eq!(header.scid, vec![0xcc]);
    assert_eq!(header.end, 10);
    let step = datagram_step(&initial, 0, initial.len()).unwrap();
    assert_eq!(step.next, Some(14));

    // Handshake (type 2) with a two-byte length field of 1.
    let handshake = [0xe0, 0, 0, 0, 1, 0, 0, 0x40, 0x01, 0x99];
    let step = datagram_step(&handshake, 0, handshake.len()).unwrap();
    assert_eq!(step.header.unwrap().packet_type, 2);
    assert_eq!(step.next, Some(10));

    // A short header takes the rest of the datagram; version 0 stops.
    let short = [0x40, 1, 2, 3];
    let step = datagram_step(&short, 0, 3).unwrap();
    assert!(step.header.is_none());
    assert_eq!(step.next, Some(3));
    let negotiation = [0x80, 0, 0, 0, 0, 0, 0];
    assert_eq!(datagram_step(&negotiation, 0, 7).unwrap().next, None);

    // Cut short.
    assert!(long_header_at(&initial[..8], 0).is_none());
    assert!(datagram_step(&initial[..11], 0, 11).is_none());
}
