use wm_core::vectors::VectorsBin;

fn normalized_bits(v: &[f32]) -> Vec<u32> {
    let norm: f32 = v.iter().map(|x| x * x).sum::<f32>().sqrt();
    v.iter().map(|x| if norm > 0.0 { x / norm } else { *x }).map(|x| x.to_bits()).collect()
}

#[test]
fn test_vectors_bin_roundtrip() {
    let entries = vec![
        ("test:id:1".to_string(), normalized_bits(&[1.0, 0.0, 0.0])),
        ("test:id:2".to_string(), normalized_bits(&[0.0, 1.0, 0.0])),
    ];
    let hashes = vec![("test:id:1".to_string(), vec![1u8; 32]), ("test:id:2".to_string(), vec![2u8; 32])];

    let data = VectorsBin::write("bge-small-en-v1.5", &entries, &hashes).unwrap();
    let (header, loaded) = VectorsBin::read(&data).unwrap();

    assert_eq!(header.dim, 3);
    assert_eq!(header.count, 2);
    assert_eq!(header.model_name, "bge-small-en-v1.5");
    assert_eq!(entries.len(), loaded.len());
    assert!(loaded.iter().any(|e| e.id == "test:id:1"));
    assert!(loaded.iter().any(|e| e.id == "test:id:2"));
    let first = loaded.iter().find(|e| e.id == "test:id:1").unwrap();
    assert_eq!(first.hash, vec![1u8; 32]);
    assert_eq!(f32::from_bits(first.vector[0]), 1.0);
}

#[test]
fn layout_of_a_small_file() {
    let entries = vec![("ab".to_string(), vec![7u32])];
    let data = VectorsBin::write("m", &entries, &Vec::new()).unwrap();
    // 24-byte header, name padded to 32, id length, id padded to 8, hash, one component
    assert_eq!(data.len(), 24 + 32 + 4 + 8 + 32 + 4);
    assert_eq!(&data[0..4], b"WMV\0");
    assert_eq!(&data[4..8], &1u32.to_le_bytes());
    assert_eq!(&data[8..12], &1u32.to_le_bytes());
    assert_eq!(&data[12..20], &1u64.to_le_bytes());
    assert_eq!(&data[20..24], &1u32.to_le_bytes());
    assert_eq!(data[24], b'm');
    assert_eq!(&data[56..60], &2u32.to_le_bytes());
    assert_eq!(&data[60..62], b"ab");
    assert_eq!(&data[68..100], &[0u8; 32]);
    assert_eq!(&data[100..104], &7u32.to_le_bytes());
}

#[test]
fn read_errors() {
    assert_eq!(VectorsBin::read(&[0u8; 10]).unwrap_err(), "file too short");
    let mut bad = vec![0u8; 24];
    bad[0] = b'X';
    assert_eq!(VectorsBin::read(&bad).unwrap_err(), "invalid magic bytes");
    let mut v2 = VectorsBin::write("m", &Vec::new(), &Vec::new()).unwrap();
    v2[4] = 2;
    assert_eq!(VectorsBin::read(&v2).unwrap_err(), "unsupported version: 2");
    let mut long_name = VectorsBin::write("m", &Vec::new(), &Vec::new()).unwrap();
    long_name[20] = 200;
    assert_eq!(VectorsBin::read(&long_name).unwrap_err(), "truncated file: model_name");
    let full = VectorsBin::write("m", &vec![("id".to_string(), vec![1u32, 2u32])], &Vec::new()).unwrap();
    assert_eq!(VectorsBin::read(&full[..57]).unwrap_err(), "truncated file: id_len");
    assert_eq!(VectorsBin::read(&full[..61]).unwrap_err(), "truncated file: id");
    assert_eq!(VectorsBin::read(&full[..80]).unwrap_err(), "truncated file: hash");
    assert_eq!(VectorsBin::read(&full[..100]).unwrap_err(), "truncated file: vector");
    assert!(VectorsBin::read(&full).is_ok());
}

#[test]
fn empty_store_round_trips() {
    let data = VectorsBin::write("model", &Vec::new(), &Vec::new()).unwrap();
    let (header, loaded) = VectorsBin::read(&data).unwrap();
    assert_eq!(header.dim, 0);
    assert_eq!(header.count, 0);
    assert_eq!(header.model_name_len, 5);
    assert!(loaded.is_empty());
}
