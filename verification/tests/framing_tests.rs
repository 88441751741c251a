use binprot::async_read_write::frame_length;
use binprot::{
    binprot_read_with_size, binprot_write_with_size, read_float32s, write_float32s, AsyncBuffer,
    BinProtRead, BinProtWrite, Error, Float32, Float64, IoErrorKind, Source,
};

#[derive(Clone, Debug, PartialEq)]
struct Pancakes(i64);

impl BinProtWrite for Pancakes {
    fn binprot_write(&self, w: &mut Vec<u8>) {
        self.0.binprot_write(w);
    }
}

impl BinProtRead for Pancakes {
    fn binprot_read(r: &mut Source) -> Result<Self, Error> {
        Ok(Pancakes(BinProtRead::binprot_read(r)?))
    }
}

#[derive(Clone, Debug, PartialEq)]
struct MorePancakes(i64, f64, i64);

impl BinProtWrite for MorePancakes {
    fn binprot_write(&self, w: &mut Vec<u8>) {
        self.0.binprot_write(w);
        Float64(self.1.to_bits()).binprot_write(w);
        self.2.binprot_write(w);
    }
}

impl BinProtRead for MorePancakes {
    fn binprot_read(r: &mut Source) -> Result<Self, Error> {
        let field0 = BinProtRead::binprot_read(r)?;
        let field1 = Float64::binprot_read(r)?;
        let field2 = BinProtRead::binprot_read(r)?;
        Ok(MorePancakes(field0, f64::from_bits(field1.0), field2))
    }
}

#[derive(Clone, Debug, PartialEq)]
struct Breakfasts {
    pancakes: Pancakes,
    more_pancakes: MorePancakes,
    value1: i64,
    value2: (f64, f64),
}

impl BinProtWrite for Breakfasts {
    fn binprot_write(&self, w: &mut Vec<u8>) {
        self.pancakes.binprot_write(w);
        self.more_pancakes.binprot_write(w);
        self.value1.binprot_write(w);
        (Float64(self.value2.0.to_bits()), Float64(self.value2.1.to_bits())).binprot_write(w);
    }
}

impl BinProtRead for Breakfasts {
    fn binprot_read(r: &mut Source) -> Result<Self, Error> {
        let pancakes = BinProtRead::binprot_read(r)?;
        let more_pancakes = BinProtRead::binprot_read(r)?;
        let value1 = BinProtRead::binprot_read(r)?;
        let value2: (Float64, Float64) = BinProtRead::binprot_read(r)?;
        Ok(Breakfasts {
            pancakes,
            more_pancakes,
            value1,
            value2: (f64::from_bits(value2.0 .0), f64::from_bits(value2.1 .0)),
        })
    }
}

// One end frames each value and puts it on the line; the other takes the frames off the
// line one by one, as a stream would hand them over: eight bytes, then the message.
fn roundtrip<T: Clone + BinProtRead + BinProtWrite + PartialEq + std::fmt::Debug>(
    vs: &[T],
) -> Result<(), Error> {
    let mut line: Vec<u8> = Vec::new();
    let mut buffer = AsyncBuffer::new(1);
    for v in vs.iter() {
        let header = buffer.encode(v);
        line.extend_from_slice(&header);
        line.extend_from_slice(buffer.as_slice());
    }
    let mut buffer = AsyncBuffer::new(1);
    let mut at = 0;
    for v in vs.iter() {
        let recv_len = frame_length(line[at..at + 8].try_into().unwrap());
        at += 8;
        buffer.resize(recv_len as usize);
        buffer.as_mut_slice().copy_from_slice(&line[at..at + recv_len as usize]);
        at += recv_len as usize;
        let w: T = buffer.decode()?;
        assert_eq!(*v, w);
    }
    assert_eq!(at, line.len());
    Ok(())
}

#[test]
fn roundtrip_test() -> Result<(), Error> {
    roundtrip(&vec![Pancakes(42); 100])?;
    roundtrip(&[Pancakes(42), Pancakes(43), Pancakes(44)])?;
    let breakfasts = Breakfasts {
        pancakes: Pancakes(12),
        more_pancakes: MorePancakes(-123, 2.71828182846, 0),
        value1: -1234567890123456,
        value2: (3.141592, 6535.8979),
    };
    roundtrip(&vec![breakfasts; 100])?;
    Ok(())
}

#[test]
fn size_in_front_of_a_message() {
    let mut w = vec![7u8];
    binprot_write_with_size(&Pancakes(456), &mut w);
    assert_eq!(w, [7, 3, 0, 0, 0, 0, 0, 0, 0, 254, 200, 1]);
    let mut source = Source::new(&w[1..]);
    assert_eq!(binprot_read_with_size::<Pancakes>(&mut source).unwrap(), Pancakes(456));
    assert_eq!(source.remaining(), 0);
    // The size is not looked at.
    let bytes = [255, 255, 255, 255, 255, 255, 255, 255, 5, 6];
    let mut source = Source::new(&bytes);
    assert_eq!(binprot_read_with_size::<Pancakes>(&mut source).unwrap(), Pancakes(5));
    assert_eq!(source.remaining(), 1);
    let bytes = [3, 0, 0, 0, 0, 0, 0];
    assert!(matches!(
        binprot_read_with_size::<Pancakes>(&mut Source::new(&bytes)),
        Err(Error::IoError(IoErrorKind::UnexpectedEof))
    ));
    let bytes = [3, 0, 0, 0, 0, 0, 0, 0];
    assert!(matches!(
        binprot_read_with_size::<Pancakes>(&mut Source::new(&bytes)),
        Err(Error::IoError(IoErrorKind::UnexpectedEof))
    ));
}

#[test]
fn buffer_frames_one_message_at_a_time() {
    let mut buffer = AsyncBuffer::new(16);
    assert_eq!(buffer.as_slice(), &[] as &[u8]);
    assert_eq!(buffer.encode(&Pancakes(456)), [3, 0, 0, 0, 0, 0, 0, 0]);
    assert_eq!(buffer.as_slice(), [254, 200, 1]);
    assert_eq!(buffer.encode(&Pancakes(5)), [1, 0, 0, 0, 0, 0, 0, 0]);
    assert_eq!(buffer.as_slice(), [5]);
    assert_eq!(buffer.decode::<Pancakes>().unwrap(), Pancakes(5));
    buffer.resize(3);
    assert_eq!(buffer.as_slice(), [5, 0, 0]);
    buffer.as_mut_slice().copy_from_slice(&[254, 200, 1]);
    assert_eq!(buffer.decode::<Pancakes>().unwrap(), Pancakes(456));
    buffer.resize(2);
    assert!(matches!(
        buffer.decode::<Pancakes>(),
        Err(Error::IoError(IoErrorKind::UnexpectedEof))
    ));
}

#[test]
fn length_of_a_frame() {
    assert_eq!(frame_length(&[3, 0, 0, 0, 0, 0, 0, 0]), 3);
    assert_eq!(frame_length(&[0, 1, 0, 0, 0, 0, 0, 0]), 256);
    assert_eq!(frame_length(&[255; 8]), -1);
    assert_eq!(frame_length(&[0, 0, 0, 0, 0, 0, 0, 0x80]), i64::MIN);
}

#[test]
fn float32_sequences_use_the_byte_order_of_the_machine() {
    let items = [Float32(1.5f32.to_bits()), Float32(0), Float32((-2.25f32).to_bits())];
    let mut w = vec![9u8];
    write_float32s(&items, &mut w);
    let mut expected = vec![9u8, 3];
    for f in [1.5f32, 0.0, -2.25] {
        expected.extend_from_slice(&f.to_ne_bytes());
    }
    assert_eq!(w, expected);
    let mut source = Source::new(&w[1..]);
    assert_eq!(read_float32s(&mut source).unwrap(), items);
    assert_eq!(source.remaining(), 0);
    let mut w = Vec::new();
    write_float32s(&[], &mut w);
    assert_eq!(w, [0]);
    assert_eq!(read_float32s(&mut Source::new(&w)).unwrap(), []);
    assert!(matches!(
        read_float32s(&mut Source::new(&[2, 0, 0, 0, 0, 1, 2, 3])),
        Err(Error::IoError(IoErrorKind::UnexpectedEof))
    ));
    assert!(matches!(
        read_float32s(&mut Source::new(&[])),
        Err(Error::IoError(IoErrorKind::UnexpectedEof))
    ));
    assert!(matches!(
        read_float32s(&mut Source::new(&[255])),
        Err(Error::IoError(IoErrorKind::InvalidData))
    ));
}
