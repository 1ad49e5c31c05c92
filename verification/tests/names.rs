use rbin::Bin;
use rbin::BinFNV;
use rbin::BinHashes;
use rbin::BinHashList;
use rbin::BinPathList;
use rbin::BinValue;
use rbin::BinXXH;
use rbin::MalformedHashFile;

#[test]
fn present_hash_resolves_to_its_label() {
    let mut list = BinHashList::new();
    list.add_line(b"11223344 some_entry").expect("line");
    let n = list.get(0x11223344);
    assert_eq!(n.get_hash(), 0x11223344);
    assert_eq!(n.get_string().as_slice(), b"some_entry");
}

#[test]
fn later_line_overwrites_earlier() {
    let mut list = BinHashList::new();
    list.add_line(b"AB first").expect("line");
    list.add_line(b"ab second").expect("line");
    let n = list.get(0xAB);
    assert_eq!(n.get_string().as_slice(), b"second");
}

#[test]
fn absent_hash_displays_as_fixed_width_hex() {
    let list = BinHashList::new();
    let n = list.get(0x0BAD);
    assert_eq!(n.get_string().len(), 0);
    let mut out = Vec::new();
    n.format_to(&mut out);
    assert_eq!(out, b"0x00000BAD".to_vec());
    assert_eq!(out.len(), 2 + 8);
}

#[test]
fn absent_path_hash_displays_sixteen_digits() {
    let paths = BinPathList::new();
    let n = paths.get(0xDEADBEEF);
    let mut out = Vec::new();
    n.format_to(&mut out);
    assert_eq!(out, b"0x00000000DEADBEEF".to_vec());
    assert_eq!(out.len(), 2 + 16);
}

#[test]
fn recovered_label_displays_verbatim() {
    let n = BinFNV::from_hash_string(5, &b"minion".to_vec());
    let mut out = Vec::new();
    out.push(b'<');
    n.format_to(&mut out);
    assert_eq!(out, b"<minion".to_vec());
}

#[test]
fn malformed_dictionary_lines() {
    let mut list = BinHashList::new();
    assert!(matches!(
        list.add_line(b"deadbeef"),
        Err(MalformedHashFile::MissingSeparator)
    ));
    assert!(matches!(
        list.add_line(b"xyz name"),
        Err(MalformedHashFile::NonHexHash)
    ));
    assert!(matches!(
        list.add_line(b" name"),
        Err(MalformedHashFile::NonHexHash)
    ));
    // too wide for a 32-bit table
    assert!(matches!(
        list.add_line(b"100000000 name"),
        Err(MalformedHashFile::NonHexHash)
    ));
    // but fine for the 64-bit one
    let mut paths = BinPathList::new();
    paths.add_line(b"100000000 name").expect("line");
    assert_eq!(paths.get(0x100000000).get_string().as_slice(), b"name");
}

#[test]
fn label_may_contain_spaces() {
    let mut list = BinHashList::new();
    list.add_line(b"1f two words").expect("line");
    assert_eq!(list.get(0x1F).get_string().as_slice(), b"two words");
}

#[test]
fn fnv1a_matches_known_vectors() {
    // FNV-1a offset basis: the hash of the empty string
    assert_eq!(BinFNV::from_string(b"").get_hash(), 0x811C9DC5);
    assert_eq!(BinFNV::from_string(b"a").get_hash(), 0xE40C292C);
    // hashing lowercases ASCII first
    assert_eq!(
        BinFNV::from_string(b"ABC").get_hash(),
        BinFNV::from_string(b"abc").get_hash()
    );
}

#[test]
fn names_compare_by_hash_alone() {
    let with_label = BinFNV::from_hash_string(42, &b"name".to_vec());
    let bare = BinFNV::from_hash(42);
    assert!(with_label == bare);
    assert!(BinFNV::from_hash(1) != BinFNV::from_hash(2));
    let p1 = BinXXH::from_hash_string(7, &b"x".to_vec());
    let p2 = BinXXH::from_hash(7);
    assert!(p1 == p2);
}

#[test]
fn names_order_by_hash_alone() {
    let a = BinFNV::from_hash_string(1, &b"zzz".to_vec());
    let b = BinFNV::from_hash(2);
    assert!(a < b);
    assert!(!(b < a));
    assert!(BinXXH::from_hash(3) > BinXXH::from_hash_string(2, &b"zzz".to_vec()));
}

#[test]
fn decoder_routes_hashes_to_the_right_table() {
    let mut hashes = BinHashes::new();
    hashes.entries.add_line(b"11223344 the_entry").expect("line");
    hashes.types.add_line(b"AABBCCDD the_type").expect("line");
    hashes.fields.add_line(b"9 the_field").expect("line");
    hashes.hashes.add_line(b"5 the_value").expect("line");
    // one entry with one hash-reference field
    let mut d = Vec::new();
    d.extend_from_slice(&0x504F5250u32.to_le_bytes());
    d.extend_from_slice(&1u32.to_le_bytes());
    d.extend_from_slice(&0u32.to_le_bytes());
    d.extend_from_slice(&1u32.to_le_bytes());
    d.extend_from_slice(&0xAABBCCDDu32.to_le_bytes());
    let mut body = Vec::new();
    body.extend_from_slice(&0x11223344u32.to_le_bytes());
    body.extend_from_slice(&1u16.to_le_bytes());
    body.extend_from_slice(&9u32.to_le_bytes());
    body.push(17u8);
    body.extend_from_slice(&5u32.to_le_bytes());
    d.extend_from_slice(&(body.len() as u32).to_le_bytes());
    d.extend_from_slice(&body);
    let bin = Bin::read_from_data(&d, &hashes).expect("decode");
    assert_eq!(bin.entries[0].0.get_string().as_slice(), b"the_entry");
    match &bin.entries[0].1 {
        BinValue::Struct(tn, fields) => {
            assert_eq!(tn.get_string().as_slice(), b"the_type");
            assert_eq!(fields[0].0.get_string().as_slice(), b"the_field");
            match &fields[0].1 {
                BinValue::Hash(n) => assert_eq!(n.get_string().as_slice(), b"the_value"),
                other => panic!("not a hash reference: {:?}", other),
            }
        }
        other => panic!("not a struct: {:?}", other),
    }
}
