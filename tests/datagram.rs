use donet::datagram::{Datagram, DatagramIterator};
use donet::endianness::{
    swap_bytes_16, swap_bytes_32, swap_bytes_64, swap_le_16, swap_le_16_for, swap_le_32,
    swap_le_32_for, swap_le_64, swap_le_64_for,
};
use donet::globals::{DgBufferResult, DgError, DgResult, CONTROL_CHANNEL, DG_SIZE_MAX};
use donet::protocol::Message;

#[test]
fn endianness_swap_le_16() {
    let host_is_big: bool = 1u16.to_ne_bytes()[0] == 0;
    let res: u16 = swap_le_16(1000 as u16);
    if !host_is_big {
        assert_eq!(res, 1000);
    }
}

#[test]
fn datagram_endianness_swap_le_16() {
    let host_is_big: bool = 1u16.to_ne_bytes()[0] == 0;
    let res: u16 = swap_le_16(1000 as u16);
    if host_is_big {
        assert_eq!(res, 59395);
    }
    assert_eq!(swap_bytes_16(1000), 59395);
}

#[test]
fn endianness_swap_le_32() {
    let host_is_big: bool = 1u16.to_ne_bytes()[0] == 0;
    let res: u32 = swap_le_32(100000000 as u32);
    if !host_is_big {
        assert_eq!(res, 100000000);
    }
}

#[test]
fn datagram_endianness_swap_le_32() {
    let host_is_big: bool = 1u16.to_ne_bytes()[0] == 0;
    let res: u32 = swap_le_32(100000000 as u32);
    if host_is_big {
        assert_eq!(res, 14808325);
    }
    assert_eq!(swap_bytes_32(100000000), 14808325);
}

#[test]
fn endianness_swap_le_64() {
    let host_is_big: bool = 1u16.to_ne_bytes()[0] == 0;
    let res: u64 = swap_le_64(100000000000000000 as u64);
    if !host_is_big {
        assert_eq!(res, 100000000000000000);
    }
}

#[test]
fn datagram_endianness_swap_le_64() {
    let host_is_big: bool = 1u16.to_ne_bytes()[0] == 0;
    let res: u64 = swap_le_64(100000000000000000 as u64);
    if host_is_big {
        assert_eq!(res, 152134054404865);
    }
    assert_eq!(swap_bytes_64(100000000000000000), 152134054404865);
}

#[test]
fn datagram_overflow_test() {
    let mut dg: Datagram = Datagram::new();
    let res_1: DgBufferResult = dg.add_buffer(DG_SIZE_MAX);

    assert!(!res_1.is_err(), "Could not append 2^16 bytes to datagram buffer.");
    assert_eq!(res_1.unwrap(), 0, "add_buffer() didn't return start of reserve.");
    // A reservation of n bytes adds exactly n bytes.
    assert_eq!(dg.size(), DG_SIZE_MAX, "Datagram didn't add 2^16 bytes to the buffer.");

    let res_2: DgResult = dg.add_u16(0);
    assert!(res_2.is_err(), "Datagram overflow occurred, but did not throw an error.");

    assert_eq!(
        res_2.unwrap_err(),
        DgError::DatagramOverflow,
        "Datagram overflow occurred, but failed to respond with DgError::DatagramOverflow."
    );
}

#[test]
fn integers_are_written_little_endian() {
    let mut dg = Datagram::new();
    assert_eq!(dg.add_u16(1000), Ok(()));
    assert_eq!(dg.add_u32(100000000), Ok(()));
    assert_eq!(dg.add_u64(100000000000000000), Ok(()));
    assert_eq!(
        dg.get_data(),
        vec![0xe8, 0x03, 0, 225, 245, 5, 0, 0, 138, 93, 120, 69, 99, 1]
    );
}

#[test]
fn every_width_reads_back() {
    let mut dg = Datagram::new();
    assert_eq!(dg.add_bool(true), Ok(()));
    assert_eq!(dg.add_bool(false), Ok(()));
    assert_eq!(dg.add_u8(250), Ok(()));
    assert_eq!(dg.add_u16(65000), Ok(()));
    assert_eq!(dg.add_u32(4000000000), Ok(()));
    assert_eq!(dg.add_u64(u64::MAX - 1), Ok(()));
    assert_eq!(dg.add_i8(-100), Ok(()));
    assert_eq!(dg.add_i16(-30000), Ok(()));
    assert_eq!(dg.add_i32(-2000000000), Ok(()));
    assert_eq!(dg.add_i64(i64::MIN), Ok(()));
    assert_eq!(dg.add_channel(123456789012), Ok(()));
    assert_eq!(dg.add_doid(77), Ok(()));
    assert_eq!(dg.add_zone(88), Ok(()));
    assert_eq!(dg.add_size(512), Ok(()));
    assert_eq!(dg.size(), 2 + 1 + 2 + 4 + 8 + 1 + 2 + 4 + 8 + 8 + 4 + 4 + 2);
    let mut dgi = DatagramIterator::new(dg);
    assert_eq!(dgi.read_bool(), Ok(true));
    assert_eq!(dgi.read_bool(), Ok(false));
    assert_eq!(dgi.read_u8(), Ok(250));
    assert_eq!(dgi.read_u16(), Ok(65000));
    assert_eq!(dgi.read_u32(), Ok(4000000000));
    assert_eq!(dgi.read_u64(), Ok(u64::MAX - 1));
    assert_eq!(dgi.read_i8(), Ok(-100));
    assert_eq!(dgi.read_i16(), Ok(-30000));
    assert_eq!(dgi.read_i32(), Ok(-2000000000));
    assert_eq!(dgi.read_i64(), Ok(i64::MIN));
    assert_eq!(dgi.read_channel(), Ok(123456789012));
    assert_eq!(dgi.read_doid(), Ok(77));
    assert_eq!(dgi.read_zone(), Ok(88));
    assert_eq!(dgi.read_size(), Ok(512));
    assert_eq!(dgi.get_remaining(), 0);
}

#[test]
fn strings_blobs_and_locations() {
    let mut dg = Datagram::new();
    assert_eq!(dg.add_string("hi"), Ok(()));
    assert_eq!(dg.add_blob(vec![9, 8, 7]), Ok(()));
    assert_eq!(dg.add_location(1, 2), Ok(()));
    assert_eq!(dg.add_data(vec![5]), Ok(()));
    assert_eq!(
        dg.get_data(),
        vec![2, 0, b'h', b'i', 3, 0, 9, 8, 7, 1, 0, 0, 0, 2, 0, 0, 0, 5]
    );
    let mut other = Datagram::new();
    assert_eq!(other.add_u8(42), Ok(()));
    assert_eq!(dg.add_datagram(other), Ok(()));
    assert_eq!(dg.size(), 19);
    let mut dgi = DatagramIterator::new(dg);
    assert_eq!(dgi.read_size(), Ok(2));
    assert_eq!(dgi.read_data(2), Ok(vec![b'h', b'i']));
    dgi.seek(17);
    assert_eq!(dgi.read_data(2), Ok(vec![5, 42]));
}

#[test]
fn appending_up_to_the_cap_succeeds_and_past_it_fails() {
    let mut dg = Datagram::new();
    assert_eq!(dg.add_data(vec![0; 65534]), Ok(()));
    assert_eq!(dg.add_u8(1), Ok(()));
    assert_eq!(dg.size(), 65535);
    assert_eq!(dg.add_u8(1), Err(DgError::DatagramOverflow));
    assert_eq!(dg.add_bool(true), Err(DgError::DatagramOverflow));
    assert_eq!(dg.size(), 65535);

    let mut small = Datagram::new();
    assert_eq!(small.add_data(vec![0; 65536]), Err(DgError::DatagramOverflow));
    assert_eq!(small.add_blob(vec![0; 65534]), Err(DgError::DatagramOverflow));
    assert_eq!(small.size(), 0);
    let long: String = "x".repeat(65536);
    assert_eq!(small.add_string(&long), Err(DgError::DatagramOverflow));
    assert_eq!(small.add_buffer(10), Ok(0));
    assert_eq!(small.add_location(1, 2), Ok(()));
    assert_eq!(small.get_data()[..10].to_vec(), vec![0; 10]);
}

#[test]
fn a_failed_read_leaves_the_cursor() {
    let mut dg = Datagram::new();
    assert_eq!(dg.add_u16(7), Ok(()));
    assert_eq!(dg.add_u8(1), Ok(()));
    let mut dgi = DatagramIterator::new(dg);
    assert_eq!(dgi.read_u16(), Ok(7));
    assert_eq!(dgi.tell(), 2);
    assert_eq!(dgi.read_u32(), Err(DgError::DatagramIteratorEOF));
    assert_eq!(dgi.tell(), 2);
    assert_eq!(dgi.skip(2), Err(DgError::DatagramIteratorEOF));
    assert_eq!(dgi.tell(), 2);
    assert_eq!(dgi.check_read_length(1), Ok(()));
    assert_eq!(dgi.read_u8(), Ok(1));
    assert_eq!(dgi.read_u8(), Err(DgError::DatagramIteratorEOF));
    assert_eq!(dgi.tell(), 3);
    dgi.seek(10);
    assert_eq!(dgi.get_remaining(), 0);
    assert_eq!(dgi.read_bool(), Err(DgError::DatagramIteratorEOF));
    assert_eq!(dgi.tell(), 10);
}

#[test]
fn peeking_the_envelope_keeps_the_cursor() {
    let mut dg = Datagram::new();
    assert_eq!(dg.add_server_header(vec![10, 20], 30, 9000), Ok(()));
    assert_eq!(dg.size(), 1 + 8 * 2 + 8 + 2);
    let mut dgi = DatagramIterator::new(dg);
    assert_eq!(dgi.skip(3), Ok(()));
    for _ in 0..3 {
        assert_eq!(dgi.read_recipient_count(), Ok(2));
        assert_eq!(dgi.tell(), 3);
        assert_eq!(dgi.read_msg_type(), Ok(Message::ControlAddChannel));
        assert_eq!(dgi.tell(), 3);
    }
    dgi.seek(0);
    assert_eq!(dgi.read_u8(), Ok(2));
    assert_eq!(dgi.read_channel(), Ok(10));
    assert_eq!(dgi.read_channel(), Ok(20));
    assert_eq!(dgi.read_channel(), Ok(30));
    assert_eq!(dgi.read_u16(), Ok(9000));
}

#[test]
fn control_header_layout() {
    let mut dg = Datagram::new();
    assert_eq!(dg.add_control_header(9001), Ok(()));
    assert_eq!(dg.get_data(), vec![1, 1, 0, 0, 0, 0, 0, 0, 0, 0x29, 0x23]);
    let mut dgi = DatagramIterator::new(dg);
    assert_eq!(dgi.read_recipient_count(), Ok(1));
    assert_eq!(dgi.read_u8(), Ok(1));
    assert_eq!(dgi.read_channel(), Ok(CONTROL_CHANNEL));
    assert_eq!(dgi.read_u16(), Ok(9001));
    assert_eq!(Message::from_code(9001), Some(Message::ControlRemoveChannel));
}

#[test]
fn unknown_and_truncated_message_types() {
    let mut empty = DatagramIterator::new(Datagram::new());
    assert_eq!(empty.read_recipient_count(), Err(DgError::DatagramIteratorEOF));
    assert_eq!(empty.read_msg_type(), Err(DgError::DatagramIteratorEOF));

    let mut dg = Datagram::new();
    assert_eq!(dg.add_server_header(vec![5], 6, 4321), Ok(()));
    let mut dgi = DatagramIterator::new(dg);
    assert_eq!(dgi.read_msg_type(), Err(DgError::UnknownMessageType));

    let mut short = Datagram::new();
    assert_eq!(short.add_u8(3), Ok(()));
    assert_eq!(short.add_u64(1), Ok(()));
    let mut dgi = DatagramIterator::new(short);
    assert_eq!(dgi.read_msg_type(), Err(DgError::DatagramIteratorEOF));
}

#[test]
fn too_many_recipients_is_refused() {
    let mut dg = Datagram::new();
    assert_eq!(dg.add_server_header(vec![1; 256], 2, 1), Err(DgError::DatagramOverflow));
    assert_eq!(dg.size(), 0);
}

#[test]
fn message_codes_round_trip() {
    assert_eq!(Message::ClientHello.code(), 1);
    assert_eq!(Message::from_code(1), Some(Message::ClientHello));
    assert_eq!(Message::from_code(9014), Some(Message::ControlLogMessage));
    assert_eq!(Message::from_code(0), None);
    for code in 0..=u16::MAX {
        if let Some(m) = Message::from_code(code) {
            assert_eq!(m.code(), code);
        }
    }
}

#[test]
fn swap_le_by_host_order() {
    assert_eq!(swap_le_16_for(false, 1000), 1000);
    assert_eq!(swap_le_16_for(true, 1000), 59395);
    assert_eq!(swap_le_32_for(false, 100000000), 100000000);
    assert_eq!(swap_le_32_for(true, 100000000), 14808325);
    assert_eq!(swap_le_64_for(false, 100000000000000000), 100000000000000000);
    assert_eq!(swap_le_64_for(true, 100000000000000000), 152134054404865);
    let host_is_big: bool = 1u16.to_ne_bytes()[0] == 0;
    assert_eq!(swap_le_16(1000), swap_le_16_for(host_is_big, 1000));
    assert_eq!(swap_le_32(100000000), swap_le_32_for(host_is_big, 100000000));
    assert_eq!(swap_le_64(7), swap_le_64_for(host_is_big, 7));
}
