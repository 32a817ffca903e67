use apkparse::axml::{is_binary_xml, XmlElementStream, XmlEvent};

fn chunk_bytes(typ: u16, additional_header: &[u8], data: &[u8]) -> Vec<u8> {
    let header_size = (8 + additional_header.len()) as u16;
    let total_size = (8 + additional_header.len() + data.len()) as u32;
    let mut out = Vec::new();
    out.extend_from_slice(&typ.to_le_bytes());
    out.extend_from_slice(&header_size.to_le_bytes());
    out.extend_from_slice(&total_size.to_le_bytes());
    out.extend_from_slice(additional_header);
    out.extend_from_slice(data);
    out
}

fn utf8_pool_chunk(strings: &[&str]) -> Vec<u8> {
    let mut offsets = Vec::new();
    let mut region = Vec::new();
    for s in strings {
        offsets.extend_from_slice(&(region.len() as u32).to_le_bytes());
        region.push(s.chars().count() as u8);
        region.push(s.len() as u8);
        region.extend_from_slice(s.as_bytes());
        region.push(0);
    }
    let mut ah = Vec::new();
    ah.extend_from_slice(&(strings.len() as u32).to_le_bytes());
    ah.extend_from_slice(&0u32.to_le_bytes());
    ah.extend_from_slice(&0x100u32.to_le_bytes());
    ah.extend_from_slice(&0u32.to_le_bytes());
    ah.extend_from_slice(&0u32.to_le_bytes());
    let mut data = offsets;
    data.extend_from_slice(&region);
    chunk_bytes(1, &ah, &data)
}

fn node_header(line: u32) -> Vec<u8> {
    let mut ah = Vec::new();
    ah.extend_from_slice(&line.to_le_bytes());
    ah.extend_from_slice(&0xffff_ffffu32.to_le_bytes()); // no comment
    ah
}

fn namespace_chunk(typ: u16, line: u32, prefix: u32, uri: u32) -> Vec<u8> {
    let mut body = Vec::new();
    body.extend_from_slice(&prefix.to_le_bytes());
    body.extend_from_slice(&uri.to_le_bytes());
    chunk_bytes(typ, &node_header(line), &body)
}

fn element_start_chunk(line: u32, ns: u32, name: u32, attrs: &[(u32, u32, u8, u32)]) -> Vec<u8> {
    let mut body = Vec::new();
    body.extend_from_slice(&ns.to_le_bytes());
    body.extend_from_slice(&name.to_le_bytes());
    body.extend_from_slice(&20u16.to_le_bytes()); // attribute start
    body.extend_from_slice(&20u16.to_le_bytes()); // attribute size
    body.extend_from_slice(&(attrs.len() as u16).to_le_bytes());
    body.extend_from_slice(&0u16.to_le_bytes()); // id index
    body.extend_from_slice(&0u16.to_le_bytes()); // class index
    body.extend_from_slice(&0u16.to_le_bytes()); // style index
    for (ans, aname, vtyp, vdata) in attrs {
        body.extend_from_slice(&ans.to_le_bytes());
        body.extend_from_slice(&aname.to_le_bytes());
        body.extend_from_slice(&0xffff_ffffu32.to_le_bytes()); // raw value
        body.extend_from_slice(&8u16.to_le_bytes());
        body.push(0);
        body.push(*vtyp);
        body.extend_from_slice(&vdata.to_le_bytes());
    }
    chunk_bytes(0x102, &node_header(line), &body)
}

fn element_end_chunk(line: u32, ns: u32, name: u32) -> Vec<u8> {
    let mut body = Vec::new();
    body.extend_from_slice(&ns.to_le_bytes());
    body.extend_from_slice(&name.to_le_bytes());
    chunk_bytes(0x103, &node_header(line), &body)
}

fn document(children: &[Vec<u8>]) -> Vec<u8> {
    let mut body = Vec::new();
    for c in children {
        body.extend_from_slice(c);
    }
    chunk_bytes(3, &[], &body)
}

#[test]
fn magic_bytes_are_recognised() {
    assert!(is_binary_xml(&[0x03, 0x00, 0x08, 0x00]));
    assert!(!is_binary_xml(&[0x02, 0x00, 0x08, 0x00]));
}

#[test]
fn event_stream_for_nested_elements() {
    // pool: 0 "ns", 1 "a", 2 "b", 3 "x", 4 "y"
    let absent = 0xffff_ffffu32;
    let doc = document(&[
        utf8_pool_chunk(&["ns", "a", "b", "x", "y"]),
        namespace_chunk(0x100, 1, 0, 3),
        element_start_chunk(2, absent, 1, &[]),
        element_start_chunk(3, absent, 2, &[]),
        element_end_chunk(3, absent, 2),
        element_end_chunk(4, absent, 1),
        namespace_chunk(0x101, 5, 0, 3),
    ]);
    let mut stream = XmlElementStream::new(&doc).unwrap();

    match stream.next().unwrap() {
        XmlEvent::NamespaceStart(ns) => {
            assert_eq!(ns.prefix, "ns");
            assert_eq!(ns.uri, "x");
            assert_eq!(ns.line_number, 1);
        }
        other => panic!("expected namespace start, got {:?}", other),
    }
    match stream.next().unwrap() {
        XmlEvent::ElementStart(e) => {
            assert_eq!(e.name, "a");
            assert!(e.ns.is_none());
            assert_eq!(e.attribute_len(), 0);
        }
        other => panic!("expected element start, got {:?}", other),
    }
    match stream.next().unwrap() {
        XmlEvent::ElementStart(e) => assert_eq!(e.name, "b"),
        other => panic!("expected element start, got {:?}", other),
    }
    match stream.next().unwrap() {
        XmlEvent::ElementEnd(e) => assert_eq!(e.name, "b"),
        other => panic!("expected element end, got {:?}", other),
    }
    match stream.next().unwrap() {
        XmlEvent::ElementEnd(e) => assert_eq!(e.name, "a"),
        other => panic!("expected element end, got {:?}", other),
    }
    match stream.next().unwrap() {
        XmlEvent::NamespaceEnd(ns) => {
            assert_eq!(ns.prefix, "ns");
            assert_eq!(ns.uri, "x");
        }
        other => panic!("expected namespace end, got {:?}", other),
    }
    assert!(stream.next().is_none());
}

#[test]
fn attributes_resolve_names_and_values() {
    let absent = 0xffff_ffffu32;
    let doc = document(&[
        utf8_pool_chunk(&["app", "name", "demo"]),
        // <app name="demo" other=true>
        element_start_chunk(7, absent, 0, &[(absent, 1, 0x03, 2), (absent, 1, 0x12, 1)]),
        element_end_chunk(8, absent, 0),
    ]);
    let mut stream = XmlElementStream::new(&doc).unwrap();
    match stream.next().unwrap() {
        XmlEvent::ElementStart(e) => {
            assert_eq!(e.name, "app");
            assert_eq!(e.attribute_len(), 2);
            let attrs = e.attributes.unwrap();
            assert_eq!(attrs[0].name, "name");
            assert_eq!(attrs[0].value.to_string(), "demo");
            assert_eq!(attrs[1].value.to_string(), "true");
        }
        other => panic!("expected element start, got {:?}", other),
    }
}

#[test]
fn resource_map_chunk_after_pool_is_skipped() {
    let absent = 0xffff_ffffu32;
    let resource_map = chunk_bytes(0x180, &[1, 0, 0, 0, 2, 0, 0, 0], &[5, 0, 0, 0]);
    let doc = document(&[
        utf8_pool_chunk(&["e"]),
        resource_map,
        element_start_chunk(1, absent, 0, &[]),
        element_end_chunk(1, absent, 0),
    ]);
    let mut stream = XmlElementStream::new(&doc).unwrap();
    match stream.next().unwrap() {
        XmlEvent::ElementStart(e) => assert_eq!(e.name, "e"),
        other => panic!("expected element start, got {:?}", other),
    }
}

#[test]
fn a_chunk_that_does_not_resolve_ends_the_stream() {
    let doc = document(&[
        utf8_pool_chunk(&["e"]),
        // element start whose name index is far outside the pool
        element_start_chunk(1, 0xffff_ffff, 99, &[]),
    ]);
    let mut stream = XmlElementStream::new(&doc).unwrap();
    assert!(stream.next().is_none());
}
