use ullis::shared::{MapError, MetalBuffer, TRACE_COPY_THRESHOLD};

#[test]
fn a_shared_buffer_gives_back_what_was_written() {
    let mut buffer = MetalBuffer::zeroed(12);
    assert_eq!(buffer.len(), 12);
    assert!(!buffer.is_empty());
    assert!(MetalBuffer::zeroed(0).is_empty());
    buffer.write_u32(&[0x0403_0201, 7]).unwrap();
    assert_eq!(buffer.read_u32(2).unwrap(), vec![0x0403_0201, 7]);
    assert_eq!(buffer.read_bytes(5).unwrap(), vec![1, 2, 3, 4, 7]);
    assert_eq!(buffer.read_u16(3).unwrap(), vec![0x0201, 0x0403, 7]);
    buffer.write_u16(&[0xffee]).unwrap();
    assert_eq!(buffer.read_u16(2).unwrap(), vec![0xffee, 0x0403]);
    assert_eq!(buffer.read_u32(2).unwrap(), vec![0x0403_ffee, 7]);
    buffer.write_f32(&[1.5f32.to_bits()]).unwrap();
    assert_eq!(f32::from_bits(buffer.read_f32(1).unwrap()[0]), 1.5);
    buffer.write_bytes(&[9]).unwrap();
    assert_eq!(buffer.map(2).unwrap(), [9, 0]);
    buffer.zero();
    assert_eq!(buffer.read_bytes(12).unwrap(), vec![0; 12]);
}

#[test]
fn a_shared_buffer_refuses_more_than_it_holds() {
    let mut buffer = MetalBuffer::zeroed(7);
    let short = MapError { asked: 8, len: 7 };
    assert_eq!(buffer.write_u32(&[1, 2]), Err(short));
    assert_eq!(buffer.read_bytes(7).unwrap(), vec![0; 7]);
    assert_eq!(buffer.read_u32(2), Err(short));
    assert_eq!(buffer.read_f32(2), Err(short));
    assert_eq!(buffer.read_u16(4), Err(short));
    assert_eq!(buffer.write_u16(&[0; 4]), Err(short));
    assert_eq!(buffer.write_bytes(&[0; 8]), Err(short));
    assert_eq!(buffer.map(8), Err(short));
    assert!(!MetalBuffer::is_traced(TRACE_COPY_THRESHOLD));
    assert!(MetalBuffer::is_traced(TRACE_COPY_THRESHOLD + 1));
}
