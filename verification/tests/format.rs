use roth::format::{Binary, BinaryFunction, BinarySection, BinaryType, FormatError};

#[test]
fn format_encode_empty() {
    let mut bytes = Vec::with_capacity(4);
    let binary = Binary {
        sections: Vec::with_capacity(0),
    };
    binary.write(&mut bytes);
    assert_eq!(bytes, [0x00, b'r', b't', b'h', 0x00])
}

#[test]
fn format_decode_empty() {
    const BYTES: [u8; 5] = [0x00, b'r', b't', b'h', 0x00];
    let (binary, _) = Binary::read(&BYTES.to_vec()).expect("Decode binary");
    assert_eq!(binary.sections.len(), 0);
}

#[test]
fn format_bad_magic() {
    const BYTES: [u8; 5] = [0x01, b'r', b't', b'h', 0x00];
    assert!(matches!(Binary::read(&BYTES.to_vec()), Err(FormatError::BadMagic)));
}

#[test]
fn format_bad_section_tag() {
    let bytes = vec![0x00, b'r', b't', b'h', 0x01, 0x09];
    assert!(matches!(Binary::read(&bytes), Err(FormatError::BadSectionTag)));
}

#[test]
fn format_roundtrip_sections() {
    let binary = Binary {
        sections: vec![
            BinarySection::Strings {
                strings: vec!["alpha".to_string(), "beta".to_string()],
            },
            BinarySection::Functions {
                functions: vec![BinaryFunction {
                    name: "main".to_string(),
                    params: vec![BinaryType::Int, BinaryType::String],
                    results: vec![BinaryType::Float],
                    code: vec![1, 2, 3, 4],
                }],
            },
            BinarySection::Modules {
                modules: vec!["core".to_string()],
            },
        ],
    };
    let mut bytes = Vec::new();
    binary.write(&mut bytes);
    let (back, end) = Binary::read(&bytes).expect("read back");
    assert_eq!(end, bytes.len());
    assert_eq!(back.sections.len(), 3);
    match &back.sections[0] {
        BinarySection::Strings { strings } => {
            assert_eq!(strings, &vec!["alpha".to_string(), "beta".to_string()])
        }
        _ => panic!("wrong section kind"),
    }
    match &back.sections[1] {
        BinarySection::Functions { functions } => {
            assert_eq!(functions.len(), 1);
            assert_eq!(functions[0].name, "main");
            assert_eq!(functions[0].params, vec![BinaryType::Int, BinaryType::String]);
            assert_eq!(functions[0].results, vec![BinaryType::Float]);
            assert_eq!(functions[0].code, vec![1, 2, 3, 4]);
        }
        _ => panic!("wrong section kind"),
    }
    match &back.sections[2] {
        BinarySection::Modules { modules } => assert_eq!(modules, &vec!["core".to_string()]),
        _ => panic!("wrong section kind"),
    }
}

#[test]
fn format_truncated_string() {
    let bytes = vec![0x00, b'r', b't', b'h', 0x01, 0x01, 0x01, 0x05, b'a'];
    assert!(matches!(Binary::read(&bytes), Err(FormatError::Truncated)));
}
