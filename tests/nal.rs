use heifers::hevc::nal::un_nal;
use heifers::hevc::nal::NalReader;

fn nal_read(input: &[u8]) -> Vec<Vec<u8>> {
    let mut reader = NalReader::new(input);
    let mut ret = Vec::new();
    while let Some(nal) = reader.read_nal().expect("reading nal") {
        ret.push(nal);
    }

    ret
}

#[test]
fn no_terminator() {
    assert_eq!(vec![b"hello".to_vec()], nal_read(b"hello"));
    assert_eq!(
        vec![b"hello".to_vec(), b"bye".to_vec()],
        nal_read(b"hello\x00\x00\x01bye")
    );
    assert_eq!(vec![b"hello".to_vec()], nal_read(b"hello\x00\x00\x01"));
    assert_eq!(vec![vec![0u8; 0]], nal_read(&[0, 0, 1]));
    assert_eq!(vec![[0, 0].to_vec()], nal_read(&[0, 0, 3]));
    assert_eq!(vec![[0, 0, 7].to_vec()], nal_read(&[0, 0, 3, 7]));
}

#[test]
fn empty_stream_has_no_units() {
    assert!(nal_read(b"").is_empty());
}

#[test]
fn single_byte_unit() {
    assert_eq!(vec![vec![9u8]], nal_read(&[9]));
}

#[test]
fn escapes_removed_inside_units() {
    assert_eq!(
        vec![vec![1u8, 0, 0, 2], vec![0, 0, 0, 4]],
        nal_read(&[1, 0, 0, 3, 2, 0, 0, 1, 0, 0, 3, 0, 4])
    );
}

#[test]
fn un_nal_removes_emulation_prevention() {
    assert_eq!(vec![0u8, 0, 7], un_nal(&[0, 0, 3, 7]));
    assert_eq!(vec![0u8, 0, 0, 0], un_nal(&[0, 0, 3, 0, 0, 3]));
    assert_eq!(vec![0u8, 0, 3], un_nal(&[0, 0, 3, 3]));
    assert_eq!(vec![0u8, 0], un_nal(&[0, 0]));
    assert_eq!(vec![5u8, 0, 3], un_nal(&[5, 0, 3]));
}

/// Adds emulation prevention the way an encoder does.
fn escape(s: &[u8]) -> Vec<u8> {
    let mut out = Vec::new();
    let mut zeros = 0;
    for &b in s {
        if zeros >= 2 && b <= 3 {
            out.push(3);
            zeros = 0;
        }
        out.push(b);
        zeros = if b == 0 { zeros + 1 } else { 0 };
    }
    out
}

#[test]
fn escape_round_trip() {
    let samples: [&[u8]; 5] = [
        &[0, 0, 0, 1],
        &[0, 0, 3],
        &[1, 2, 3],
        &[0, 0, 0, 0, 0, 2, 0, 0],
        &[],
    ];
    for s in samples {
        assert_eq!(s.to_vec(), un_nal(&escape(s)));
    }
    assert_eq!(vec![0u8, 0, 3, 0, 0, 3, 1], escape(&[0, 0, 0, 0, 1]));
}
