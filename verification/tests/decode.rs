use rbin::Bin;
use rbin::BinError;
use rbin::BinHashes;
use rbin::BinValue;

fn push_u16(out: &mut Vec<u8>, v: u16) {
    out.extend_from_slice(&v.to_le_bytes());
}

fn push_u32(out: &mut Vec<u8>, v: u32) {
    out.extend_from_slice(&v.to_le_bytes());
}

/// A document header: magic, version, link count, then the given links.
fn doc_header(version: u32, links: &[&[u8]]) -> Vec<u8> {
    let mut d = Vec::new();
    push_u32(&mut d, 0x504F5250);
    push_u32(&mut d, version);
    push_u32(&mut d, links.len() as u32);
    for l in links {
        push_u16(&mut d, l.len() as u16);
        d.extend_from_slice(l);
    }
    d
}

/// An entry body region: entry-name hash, field count, field payloads.
fn entry_region(name_hash: u32, fields: &[(u32, u8, &[u8])]) -> Vec<u8> {
    let mut body = Vec::new();
    push_u32(&mut body, name_hash);
    push_u16(&mut body, fields.len() as u16);
    for (fh, tag, payload) in fields {
        push_u32(&mut body, *fh);
        body.push(*tag);
        body.extend_from_slice(payload);
    }
    body
}

/// A whole document with the given entries (type hash, body region).
fn doc_with_entries(version: u32, links: &[&[u8]], entries: &[(u32, Vec<u8>)]) -> Vec<u8> {
    let mut d = doc_header(version, links);
    push_u32(&mut d, entries.len() as u32);
    for (th, _) in entries {
        push_u32(&mut d, *th);
    }
    for (_, body) in entries {
        push_u32(&mut d, body.len() as u32);
        d.extend_from_slice(body);
    }
    d
}

/// A document with one entry holding the given fields.
fn doc_one_entry(fields: &[(u32, u8, &[u8])]) -> Vec<u8> {
    doc_with_entries(1, &[], &[(0xAABBCCDD, entry_region(0x11223344, fields))])
}

/// The single field value of a one-entry document.
fn decode_single_field(fields: &[(u32, u8, &[u8])]) -> BinValue {
    let hashes = BinHashes::new();
    let d = doc_one_entry(fields);
    let bin = Bin::read_from_data(&d, &hashes).expect("decode");
    assert_eq!(bin.entries.len(), 1);
    match &bin.entries[0].1 {
        BinValue::Struct(_, fs) => {
            assert_eq!(fs.len(), 1);
            clone_value(&fs[0].1)
        }
        other => panic!("not a struct: {:?}", other),
    }
}

/// Local stand-in: BinValue carries no Clone, so rebuild by matching.
fn clone_value(v: &BinValue) -> BinValue {
    match v {
            BinValue::Absent => BinValue::Absent,
            BinValue::Bool(b) => BinValue::Bool(*b),
            BinValue::Signed(v) => BinValue::Signed(*v),
            BinValue::Unsigned(v) => BinValue::Unsigned(*v),
            BinValue::Float(v) => BinValue::Float(*v),
            BinValue::Vec2(a, b) => BinValue::Vec2(*a, *b),
            BinValue::Vec3(a, b, c) => BinValue::Vec3(*a, *b, *c),
            BinValue::Vec4(a, b, c, e) => BinValue::Vec4(*a, *b, *c, *e),
            BinValue::Mtx44(m) => BinValue::Mtx44(m.clone()),
            BinValue::Rgba(r, g, b, a) => BinValue::Rgba(*r, *g, *b, *a),
            BinValue::Text(t) => BinValue::Text(t.clone()),
            BinValue::Hash(n) => BinValue::Hash(rbin::BinFNV::from_hash_string(
                n.get_hash(),
                n.get_string(),
            )),
            BinValue::Link(n) => BinValue::Link(rbin::BinFNV::from_hash_string(
                n.get_hash(),
                n.get_string(),
            )),
            BinValue::File(n) => BinValue::File(rbin::BinXXH::from_hash_string(
                n.get_hash(),
                n.get_string(),
            )),
            BinValue::List(items) => {
                BinValue::List(items.iter().map(clone_value).collect())
            }
            BinValue::Pairs(ps) => BinValue::Pairs(
                ps.iter()
                    .map(|(k, w)| (clone_value(k), clone_value(w)))
                    .collect(),
            ),
            BinValue::Struct(n, fs) => BinValue::Struct(
                rbin::BinFNV::from_hash_string(n.get_hash(), n.get_string()),
                fs.iter()
                    .map(|(k, w)| {
                        (
                            rbin::BinFNV::from_hash_string(k.get_hash(), k.get_string()),
                            clone_value(w),
                        )
                    })
                    .collect(),
            ),
    }
}

#[test]
fn minimal_document_decodes_empty() {
    let hashes = BinHashes::new();
    let d = doc_with_entries(7, &[], &[]);
    let bin = Bin::read_from_data(&d, &hashes).expect("decode");
    assert_eq!(bin.version, 7);
    assert!(bin.links.is_empty());
    assert!(bin.entries.is_empty());
}

#[test]
fn end_to_end_single_entry() {
    let hashes = BinHashes::new();
    let d = doc_with_entries(1, &[], &[(0xAABBCCDD, entry_region(0x11223344, &[]))]);
    let bin = Bin::read_from_data(&d, &hashes).expect("decode");
    assert_eq!(bin.version, 1);
    assert!(bin.links.is_empty());
    assert_eq!(bin.entries.len(), 1);
    assert_eq!(bin.entries[0].0.get_hash(), 0x11223344);
    match &bin.entries[0].1 {
        BinValue::Struct(tn, fields) => {
            assert_eq!(tn.get_hash(), 0xAABBCCDD);
            assert!(fields.is_empty());
        }
        other => panic!("not a struct: {:?}", other),
    }
}

#[test]
fn bad_magic_is_rejected() {
    let hashes = BinHashes::new();
    let mut d = doc_with_entries(1, &[], &[]);
    d[0] = 0x51;
    assert!(matches!(
        Bin::read_from_data(&d, &hashes),
        Err(BinError::BadMagic)
    ));
}

#[test]
fn short_buffer_is_eof() {
    let hashes = BinHashes::new();
    assert!(matches!(
        Bin::read_from_data(&[0x50, 0x52], &hashes),
        Err(BinError::UnexpectedEof)
    ));
    let d = doc_header(1, &[]);
    // links count missing entirely
    assert!(matches!(
        Bin::read_from_data(&d[..8], &hashes),
        Err(BinError::UnexpectedEof)
    ));
}

#[test]
fn links_keep_order_and_duplicates() {
    let hashes = BinHashes::new();
    let mut d = doc_header(3, &[b"a/b.bin", b"c.bin", b"a/b.bin"]);
    push_u32(&mut d, 0);
    let bin = Bin::read_from_data(&d, &hashes).expect("decode");
    assert_eq!(bin.links.len(), 3);
    assert_eq!(bin.links[0], b"a/b.bin".to_vec());
    assert_eq!(bin.links[1], b"c.bin".to_vec());
    assert_eq!(bin.links[2], b"a/b.bin".to_vec());
}

#[test]
fn color_bytes_are_swapped() {
    let v = decode_single_field(&[(1, 15, &[0xAA, 0xBB, 0xCC, 0xDD])]);
    match v {
        BinValue::Rgba(r, g, b, a) => {
            assert_eq!((r, g, b, a), (0xDD, 0xCC, 0xBB, 0xAA));
        }
        other => panic!("not a color: {:?}", other),
    }
}

#[test]
fn signed_bytes_sign_extend() {
    match decode_single_field(&[(1, 2, &[0xFF])]) {
        BinValue::Signed(v) => assert_eq!(v, -1),
        other => panic!("not signed: {:?}", other),
    }
    match decode_single_field(&[(1, 8, &[0, 0, 0, 0, 0, 0, 0, 0x80])]) {
        BinValue::Signed(v) => assert_eq!(v, i64::MIN),
        other => panic!("not signed: {:?}", other),
    }
}

#[test]
fn unsigned_and_float_bits() {
    match decode_single_field(&[(1, 5, &[0x34, 0x12])]) {
        BinValue::Unsigned(v) => assert_eq!(v, 0x1234),
        other => panic!("not unsigned: {:?}", other),
    }
    match decode_single_field(&[(1, 10, &[0x00, 0x00, 0x80, 0x3F])]) {
        BinValue::Float(bits) => assert_eq!(f32::from_bits(bits), 1.0),
        other => panic!("not a float: {:?}", other),
    }
}

#[test]
fn vectors_and_matrix() {
    let mut m = Vec::new();
    for i in 0..16u32 {
        push_u32(&mut m, i);
    }
    match decode_single_field(&[(1, 14, &m)]) {
        BinValue::Mtx44(cells) => {
            assert_eq!(cells, (0..16u32).collect::<Vec<u32>>());
        }
        other => panic!("not a matrix: {:?}", other),
    }
    let mut v = Vec::new();
    push_u32(&mut v, 1);
    push_u32(&mut v, 2);
    push_u32(&mut v, 3);
    match decode_single_field(&[(1, 12, &v)]) {
        BinValue::Vec3(a, b, c) => assert_eq!((a, b, c), (1, 2, 3)),
        other => panic!("not a vec3: {:?}", other),
    }
}

#[test]
fn text_is_read_and_validated() {
    let mut p = Vec::new();
    push_u16(&mut p, 2);
    p.extend_from_slice(b"hi");
    match decode_single_field(&[(1, 16, &p)]) {
        BinValue::Text(t) => assert_eq!(t, b"hi".to_vec()),
        other => panic!("not text: {:?}", other),
    }
    let mut bad = Vec::new();
    push_u16(&mut bad, 2);
    bad.extend_from_slice(&[0xC0, 0x80]);
    let hashes = BinHashes::new();
    let d = doc_one_entry(&[(1, 16, &bad)]);
    assert!(matches!(
        Bin::read_from_data(&d, &hashes),
        Err(BinError::InvalidText)
    ));
}

#[test]
fn unknown_tag_is_a_hard_failure() {
    let hashes = BinHashes::new();
    let d = doc_one_entry(&[(1, 0x30, &[])]);
    assert!(matches!(
        Bin::read_from_data(&d, &hashes),
        Err(BinError::UnknownTag)
    ));
}

#[test]
fn flag_is_an_alias_of_bool() {
    match decode_single_field(&[(1, 0x87, &[2])]) {
        BinValue::Bool(b) => assert!(b),
        other => panic!("not a bool: {:?}", other),
    }
    match decode_single_field(&[(1, 1, &[0])]) {
        BinValue::Bool(b) => assert!(!b),
        other => panic!("not a bool: {:?}", other),
    }
}

/// One list value's payload (after the list tag itself): element tag,
/// region length, count, items.
fn list_payload(etag: u8, count: u32, items: &[u8]) -> Vec<u8> {
    let mut p = Vec::new();
    p.push(etag);
    push_u32(&mut p, 4 + items.len() as u32);
    push_u32(&mut p, count);
    p.extend_from_slice(items);
    p
}

#[test]
fn lists_and_the_list_alias() {
    let mut items = Vec::new();
    items.push(1u8);
    items.push(0u8);
    for tag in [0x80u8, 0x81u8] {
        match decode_single_field(&[(1, tag, &list_payload(1, 2, &items))]) {
            BinValue::List(vs) => {
                assert_eq!(vs.len(), 2);
                assert!(matches!(vs[0], BinValue::Bool(true)));
                assert!(matches!(vs[1], BinValue::Bool(false)));
            }
            other => panic!("not a list: {:?}", other),
        }
    }
}

#[test]
fn map_keeps_duplicates_in_wire_order() {
    // key tag u8, value tag u8, two pairs with the same key
    let mut p = Vec::new();
    p.push(3u8);
    p.push(3u8);
    push_u32(&mut p, 4 + 4);
    push_u32(&mut p, 2);
    p.extend_from_slice(&[7, 1, 7, 2]);
    match decode_single_field(&[(1, 0x86, &p)]) {
        BinValue::Pairs(ps) => {
            assert_eq!(ps.len(), 2);
            assert!(matches!(ps[0], (BinValue::Unsigned(7), BinValue::Unsigned(1))));
            assert!(matches!(ps[1], (BinValue::Unsigned(7), BinValue::Unsigned(2))));
        }
        other => panic!("not a map: {:?}", other),
    }
}

#[test]
fn option_present_and_absent() {
    match decode_single_field(&[(1, 0x85, &[3, 1, 42])]) {
        BinValue::Unsigned(v) => assert_eq!(v, 42),
        other => panic!("not the inner value: {:?}", other),
    }
    match decode_single_field(&[(1, 0x85, &[3, 0])]) {
        BinValue::Absent => {}
        other => panic!("not absent: {:?}", other),
    }
}

#[test]
fn null_struct_sentinel_decodes_absent() {
    match decode_single_field(&[(1, 0x82, &[0, 0, 0, 0])]) {
        BinValue::Absent => {}
        other => panic!("not absent: {:?}", other),
    }
}

#[test]
fn embedded_struct_with_fields() {
    // pointer: type hash, region(len), entry body = field count + fields
    let mut p = Vec::new();
    push_u32(&mut p, 0xDEAD);
    let mut body = Vec::new();
    push_u16(&mut body, 1);
    push_u32(&mut body, 0x42);
    body.push(1u8);
    body.push(1u8);
    push_u32(&mut p, body.len() as u32);
    p.extend_from_slice(&body);
    match decode_single_field(&[(1, 0x83, &p)]) {
        BinValue::Struct(tn, fields) => {
            assert_eq!(tn.get_hash(), 0xDEAD);
            assert_eq!(fields.len(), 1);
            assert_eq!(fields[0].0.get_hash(), 0x42);
            assert!(matches!(fields[0].1, BinValue::Bool(true)));
        }
        other => panic!("not a struct: {:?}", other),
    }
}

#[test]
fn duplicate_fields_last_write_wins() {
    let v = {
        let hashes = BinHashes::new();
        let d = doc_one_entry(&[(9, 3, &[1]), (9, 3, &[2])]);
        let bin = Bin::read_from_data(&d, &hashes).expect("decode");
        match &bin.entries[0].1 {
            BinValue::Struct(_, fs) => {
                assert_eq!(fs.len(), 1);
                assert_eq!(fs[0].0.get_hash(), 9);
                clone_value(&fs[0].1)
            }
            other => panic!("not a struct: {:?}", other),
        }
    };
    assert!(matches!(v, BinValue::Unsigned(2)));
}

#[test]
fn duplicate_entries_collapse_to_the_later() {
    let hashes = BinHashes::new();
    let d = doc_with_entries(
        1,
        &[],
        &[
            (0xA1, entry_region(0x77, &[(5, 3, &[1])])),
            (0xA2, entry_region(0x77, &[(5, 3, &[2])])),
        ],
    );
    let bin = Bin::read_from_data(&d, &hashes).expect("decode");
    assert_eq!(bin.entries.len(), 1);
    assert_eq!(bin.entries[0].0.get_hash(), 0x77);
    match &bin.entries[0].1 {
        BinValue::Struct(tn, fs) => {
            assert_eq!(tn.get_hash(), 0xA2);
            assert_eq!(fs.len(), 1);
            assert!(matches!(fs[0].1, BinValue::Unsigned(2)));
        }
        other => panic!("not a struct: {:?}", other),
    }
}

/// `levels` nested list values, the innermost an empty list of `none`.
fn nested_lists(levels: u32) -> Vec<u8> {
    // an element of a list of lists carries no tag byte of its own: the
    // element tag stands once in the enclosing list's header
    let mut payload = list_payload(0, 0, &[]);
    for _ in 1..levels {
        let inner = payload;
        payload = list_payload(0x80, 1, &inner);
    }
    payload
}

#[test]
fn depth_cap_is_exactly_honoured() {
    // the entry region is one open region; 127 nested lists reach the
    // cap of 128 open regions and succeed
    let ok = doc_one_entry(&[(1, 0x80, &nested_lists(127))]);
    let hashes = BinHashes::new();
    assert!(Bin::read_from_data(&ok, &hashes).is_ok());
    // one more level would open a 129th region
    let too_deep = doc_one_entry(&[(1, 0x80, &nested_lists(128))]);
    assert!(matches!(
        Bin::read_from_data(&too_deep, &hashes),
        Err(BinError::DepthExceeded)
    ));
}

#[test]
fn truncated_region_never_reads_past_its_span() {
    // a list whose region is declared shorter than its payload: the
    // child read fails instead of continuing into sibling data
    let mut p = Vec::new();
    p.push(3u8); // element tag u8
    push_u32(&mut p, 4); // region: only the count fits
    push_u32(&mut p, 2); // but two items are promised
    p.extend_from_slice(&[1, 2]); // sibling bytes outside the region
    let hashes = BinHashes::new();
    let d = doc_one_entry(&[(1, 0x80, &p)]);
    assert!(matches!(
        Bin::read_from_data(&d, &hashes),
        Err(BinError::UnexpectedEof)
    ));
    // a region reaching past the parent's bytes is an overrun
    let mut q = Vec::new();
    q.push(3u8);
    push_u32(&mut q, 1000);
    let d2 = doc_one_entry(&[(1, 0x80, &q)]);
    assert!(matches!(
        Bin::read_from_data(&d2, &hashes),
        Err(BinError::RegionOverrun)
    ));
}
