use eye::backend::macho::writer::{Name, SegmentSection64};

#[test]
fn segment_size() {
    let segment = SegmentSection64 {
        section_name: Name::TextSection,
        section_addr: 0xAA,
        alignment: 8,
        relocations: Vec::new(),
        flag: 0,
        contents: vec![0xAB, 0xCD, 0xEF, 0x12],
    };
    let mut buf = Vec::new();
    segment.write(&mut buf, Name::TextSegment, &mut 0);
    assert_eq!(buf.len(), SegmentSection64::SIZE as usize);
}
