use chomp::input::{any, take, Input, Outcome};
use chomp::provider::MemoryProvider;
use chomp::source::{ParseError, ReadSource, DEFAULT_BUFFER_SIZE};

fn source(bytes: &[u8], size: usize) -> ReadSource<MemoryProvider> {
    ReadSource::with_size(MemoryProvider::new(bytes.to_vec()), size)
}

fn any_counted<'b>(i: Input<'b, u8>, n: &mut u32, m: &mut u32) -> Outcome<'b, u8, u8, ()> {
    *n += 1;
    let r = any(i);
    if let Outcome::Data(..) = r {
        *m += 1;
    }
    r
}

fn take_counted<'b>(i: Input<'b, u8>, k: usize, n: &mut u32, m: &mut u32) -> Outcome<'b, u8, Vec<u8>, ()> {
    *n += 1;
    let r = take(i, k);
    if let Outcome::Data(..) = r {
        *m += 1;
    }
    r
}

#[test]
fn default_bufsize() {
    let b = ReadSource::new(MemoryProvider::new(b"test".to_vec()));

    assert_eq!(b.capacity(), DEFAULT_BUFFER_SIZE);
}

#[test]
fn empty_buf() {
    let mut n = 0;
    let mut b = ReadSource::new(MemoryProvider::new(Vec::new()));

    let r = b.parse(|i| {
        n += 1;
        match take::<()>(i, 1) {
            Outcome::Data(rest, _) => Outcome::Data(rest, true),
            Outcome::Error(rest, e) => Outcome::Error(rest, e),
            Outcome::Incomplete(k) => Outcome::Incomplete(k),
        }
    });

    assert_eq!(r, Err(ParseError::EndOfInput));
    assert_eq!(n, 0);
}

#[test]
fn fill() {
    let mut n = 0; // Times it has entered the parsing function
    let mut m = 0; // Times it has managed to get past the request for data
    let mut b = source(b"test", 1);

    assert_eq!(b.parse(|i| any_counted(i, &mut n, &mut m)), Ok(b't'));
    assert_eq!(n, 1);
    assert_eq!(m, 1);
    assert_eq!(b.parse(|i| any_counted(i, &mut n, &mut m)), Err(ParseError::Retry));
    assert_eq!(n, 2);
    assert_eq!(m, 1);
    assert_eq!(b.parse(|i| any_counted(i, &mut n, &mut m)), Ok(b'e'));
    assert_eq!(n, 3);
    assert_eq!(m, 2);
    assert_eq!(b.parse(|i| any_counted(i, &mut n, &mut m)), Err(ParseError::Retry));
    assert_eq!(n, 4);
    assert_eq!(m, 2);
    assert_eq!(b.parse(|i| any_counted(i, &mut n, &mut m)), Ok(b's'));
    assert_eq!(n, 5);
    assert_eq!(m, 3);
    assert_eq!(b.parse(|i| any_counted(i, &mut n, &mut m)), Err(ParseError::Retry));
    assert_eq!(n, 6);
    assert_eq!(m, 3);
    assert_eq!(b.parse(|i| any_counted(i, &mut n, &mut m)), Ok(b't'));
    assert_eq!(n, 7);
    assert_eq!(m, 4);
    assert_eq!(b.parse(|i| any_counted(i, &mut n, &mut m)), Err(ParseError::Retry));
    assert_eq!(n, 8);
    assert_eq!(m, 4);
    assert_eq!(b.parse(|i| any_counted(i, &mut n, &mut m)), Err(ParseError::EndOfInput));
    assert_eq!(n, 8);
    assert_eq!(m, 4);
    assert_eq!(b.parse(|i| any_counted(i, &mut n, &mut m)), Err(ParseError::EndOfInput));
    assert_eq!(n, 8);
    assert_eq!(m, 4);
}

#[test]
fn fill2() {
    let mut n = 0;
    let mut m = 0;
    let mut b = source(b"test", 2);

    assert_eq!(b.parse(|i| any_counted(i, &mut n, &mut m)), Ok(b't'));
    assert_eq!(n, 1);
    assert_eq!(m, 1);
    assert_eq!(b.parse(|i| any_counted(i, &mut n, &mut m)), Ok(b'e'));
    assert_eq!(n, 2);
    assert_eq!(m, 2);
    assert_eq!(b.parse(|i| any_counted(i, &mut n, &mut m)), Err(ParseError::Retry));
    assert_eq!(n, 3);
    assert_eq!(m, 2);
    assert_eq!(b.parse(|i| any_counted(i, &mut n, &mut m)), Ok(b's'));
    assert_eq!(n, 4);
    assert_eq!(m, 3);
    assert_eq!(b.parse(|i| any_counted(i, &mut n, &mut m)), Ok(b't'));
    assert_eq!(n, 5);
    assert_eq!(m, 4);
    assert_eq!(b.parse(|i| any_counted(i, &mut n, &mut m)), Err(ParseError::Retry));
    assert_eq!(n, 6);
    assert_eq!(m, 4);
    assert_eq!(b.parse(|i| any_counted(i, &mut n, &mut m)), Err(ParseError::EndOfInput));
    assert_eq!(n, 6);
    assert_eq!(m, 4);
    assert_eq!(b.parse(|i| any_counted(i, &mut n, &mut m)), Err(ParseError::EndOfInput));
    assert_eq!(n, 6);
    assert_eq!(m, 4);
}

#[test]
fn fill3() {
    let mut n = 0;
    let mut m = 0;
    let mut b = source(b"test", 3);

    assert_eq!(b.parse(|i| take_counted(i, 2, &mut n, &mut m)), Ok(b"te".to_vec()));
    assert_eq!(n, 1);
    assert_eq!(m, 1);
    assert_eq!(b.parse(|i| take_counted(i, 2, &mut n, &mut m)), Err(ParseError::Retry));
    assert_eq!(n, 2);
    assert_eq!(m, 1);
    assert_eq!(b.parse(|i| take_counted(i, 2, &mut n, &mut m)), Ok(b"st".to_vec()));
    assert_eq!(n, 3);
    assert_eq!(m, 2);
    assert_eq!(b.parse(|i| take_counted(i, 2, &mut n, &mut m)), Err(ParseError::EndOfInput));
    assert_eq!(n, 3);
    assert_eq!(m, 2);
    assert_eq!(b.parse(|i| take_counted(i, 2, &mut n, &mut m)), Err(ParseError::EndOfInput));
    assert_eq!(n, 3);
    assert_eq!(m, 2);
}

#[test]
fn incomplete() {
    let mut n = 0;
    let mut m = 0;
    let mut b = source(b"tes", 2);

    assert_eq!(b.parse(|i| take_counted(i, 2, &mut n, &mut m)), Ok(b"te".to_vec()));
    assert_eq!(n, 1);
    assert_eq!(m, 1);
    assert_eq!(b.parse(|i| take_counted(i, 2, &mut n, &mut m)), Err(ParseError::Retry));
    assert_eq!(n, 2);
    assert_eq!(m, 1);
    assert_eq!(b.parse(|i| take_counted(i, 2, &mut n, &mut m)), Err(ParseError::Incomplete(2)));
    assert_eq!(n, 3);
    assert_eq!(m, 1);
    assert_eq!(b.parse(|i| take_counted(i, 2, &mut n, &mut m)), Err(ParseError::Incomplete(2)));
    assert_eq!(n, 4);
    assert_eq!(m, 1);
}

#[test]
fn no_autofill() {
    let mut n = 0;
    let mut m = 0;
    let mut b = source(b"test", 2);

    b.set_autofill(false);

    assert_eq!(b.parse(|i| take_counted(i, 2, &mut n, &mut m)), Err(ParseError::Retry));
    assert_eq!(n, 1);
    assert_eq!(m, 0);

    assert_eq!(b.fill().unwrap(), 2);

    assert_eq!(b.parse(|i| take_counted(i, 2, &mut n, &mut m)), Ok(b"te".to_vec()));
    assert_eq!(n, 2);
    assert_eq!(m, 1);
    assert_eq!(b.parse(|i| take_counted(i, 2, &mut n, &mut m)), Err(ParseError::Retry));
    assert_eq!(n, 3);
    assert_eq!(m, 1);

    assert_eq!(b.fill().unwrap(), 2);

    assert_eq!(b.parse(|i| take_counted(i, 2, &mut n, &mut m)), Ok(b"st".to_vec()));
    assert_eq!(n, 4);
    assert_eq!(m, 2);
    assert_eq!(b.parse(|i| take_counted(i, 2, &mut n, &mut m)), Err(ParseError::Retry));
    assert_eq!(n, 5);
    assert_eq!(m, 2);

    assert_eq!(b.fill().unwrap(), 0);

    assert_eq!(b.parse(|i| take_counted(i, 2, &mut n, &mut m)), Err(ParseError::EndOfInput));
    assert_eq!(n, 5);
    assert_eq!(m, 2);
}

#[test]
fn no_autofill_first() {
    let mut n = 0;
    let mut m = 0;
    let mut b = source(b"ab", 1);

    b.set_autofill(false);

    assert_eq!(b.fill().unwrap(), 1);

    assert_eq!(b.parse(|i| any_counted(i, &mut n, &mut m)), Ok(b'a'));
    assert_eq!(n, 1);
    assert_eq!(m, 1);
    assert_eq!(b.parse(|i| any_counted(i, &mut n, &mut m)), Err(ParseError::Retry));
    assert_eq!(n, 2);
    assert_eq!(m, 1);

    assert_eq!(b.fill().unwrap(), 1);

    assert_eq!(b.parse(|i| any_counted(i, &mut n, &mut m)), Ok(b'b'));
    assert_eq!(n, 3);
    assert_eq!(m, 2);
    assert_eq!(b.parse(|i| any_counted(i, &mut n, &mut m)), Err(ParseError::Retry));
    assert_eq!(n, 4);
    assert_eq!(m, 2);

    assert_eq!(b.fill().unwrap(), 0);

    assert_eq!(b.parse(|i| any_counted(i, &mut n, &mut m)), Err(ParseError::EndOfInput));
    assert_eq!(n, 4);
    assert_eq!(m, 2);
}
