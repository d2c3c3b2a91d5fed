use eye::backend::emit::Relocation;
use eye::backend::elf::symtab::{Bind, Entry, SymtabWriter, Type, Visibility};
use eye::backend::elf::writer::{ElfObjectWriter, SectionIdx};
use eye::backend::macho::relocation::{
    RelocationInfo, RelocationLength, RelocationTypeX86_64,
};
use eye::backend::macho::symtab::{SymTab, SymbolNum};
use eye::backend::module::{list_targets, Backend, Machine};
use eye::backend::object::{lay_out, lay_out_globals, Body, ObjectFunction, ObjectGlobal, ObjectModule};
use eye::backend::state::{round_up_u32, BackendState};
use eye::ir::ids::LocalFunctionId;
use eye::ir::types::Layout;
use eye::target::Target;

fn module() -> ObjectModule {
    ObjectModule {
        name: "main".to_owned(),
        functions: vec![
            ObjectFunction { name: "puts".to_owned(), body: None },
            ObjectFunction {
                name: "helper".to_owned(),
                body: Some(Body { code: vec![0xC3], relocations: vec![] }),
            },
            ObjectFunction {
                name: "main".to_owned(),
                body: Some(Body {
                    code: vec![0xE8, 0, 0, 0, 0, 0xE8, 0, 0, 0, 0, 0xC3],
                    relocations: vec![
                        Relocation::FunctionCall(LocalFunctionId(1), 1),
                        Relocation::FunctionCall(LocalFunctionId(0), 6),
                    ],
                }),
            },
        ],
        globals: vec![
            ObjectGlobal { name: "text".to_owned(), readonly: true, value: b"hi\0".to_vec() },
            ObjectGlobal { name: "count".to_owned(), readonly: false, value: vec![1, 0, 0, 0] },
        ],
    }
}

#[test]
fn functions_are_laid_out() {
    let (text, relocations, offsets) = lay_out(&module());
    assert_eq!(text.len(), 12);
    assert_eq!(text[0], 0xC3);
    assert_eq!(text[1], 0xE8);
    assert_eq!(offsets[1..], [0, 1]);
    assert_eq!(
        relocations,
        vec![
            Relocation::FunctionCall(LocalFunctionId(1), 2),
            Relocation::FunctionCall(LocalFunctionId(0), 7),
        ],
    );
}

#[test]
fn globals_are_laid_out() {
    let (rodata, data, offsets) = lay_out_globals(&module());
    assert_eq!(rodata, b"hi\0".to_vec());
    assert_eq!(data, vec![1, 0, 0, 0]);
    assert_eq!(offsets, vec![0, 0]);
}

fn u16_at(b: &[u8], i: usize) -> u16 {
    u16::from_le_bytes([b[i], b[i + 1]])
}

fn u64_at(b: &[u8], i: usize) -> u64 {
    let mut part = [0; 8];
    part.copy_from_slice(&b[i..i + 8]);
    u64::from_le_bytes(part)
}

fn holds(b: &[u8], part: &[u8]) -> bool {
    b.windows(part.len()).any(|w| w == part)
}

#[test]
fn linux_objects_are_elf_files() {
    let target = Target::parse("x86_64-unknown-linux").unwrap();
    let file = Backend::new().emit_module(&module(), &target).unwrap();
    assert_eq!(file[..4], [0x7F, b'E', b'L', b'F']);
    // 64 bit, little endian
    assert_eq!(file[4..6], [2, 1]);
    // relocatable, for x86_64
    assert_eq!(u16_at(&file, 16), 1);
    assert_eq!(u16_at(&file, 18), 0x3E);
    for name in [".text", ".symtab", ".strtab", ".rodata", "main", "helper", "puts"] {
        assert!(holds(&file, name.as_bytes()), "{name} is missing");
    }
    // the section headers stand within the file
    let headers = u64_at(&file, 40) as usize;
    let count = u16_at(&file, 60) as usize;
    assert!(headers + 64 * count <= file.len());
    // the call of the function in the file is resolved: from behind the call to the start
    let distance = (-6i32).to_le_bytes();
    assert!(holds(&file, &[0xC3, 0xE8, distance[0], distance[1], distance[2], distance[3]]));
}

#[test]
fn darwin_objects_are_macho_files() {
    let target = Target::parse("x86_64-apple-darwin").unwrap();
    let mut module = module();
    // without the call of a function that comes before
    module.functions[2].body.as_mut().unwrap().relocations.remove(0);
    let file = Backend::new().emit_module(&module, &target).unwrap();
    assert_eq!(file[..4], 0xFEEDFACFu32.to_le_bytes());
    assert_eq!(file[4..8], 0x01000007u32.to_le_bytes());
    for name in ["__text", "__TEXT", "_main", "_helper", "_puts"] {
        assert!(holds(&file, name.as_bytes()), "{name} is missing");
    }
}

#[test]
fn macho_distances_are_written_at_the_offset_they_equal() {
    let target = Target::parse("x86_64-apple-darwin").unwrap();
    let code = vec![0xE8, 0, 0, 0, 0, 0x90, 0x90, 0x90, 0x90, 0x90, 0xC3];
    let module = ObjectModule {
        name: "m".to_owned(),
        functions: vec![
            ObjectFunction {
                name: "main".to_owned(),
                body: Some(Body {
                    code,
                    relocations: vec![Relocation::FunctionCall(LocalFunctionId(1), 1)],
                }),
            },
            ObjectFunction {
                name: "helper".to_owned(),
                body: Some(Body { code: vec![0xC3], relocations: vec![] }),
            },
        ],
        globals: vec![],
    };
    let file = Backend::new().emit_module(&module, &target).unwrap();
    assert!(holds(&file, &[0xE8, 0, 0, 0, 0, 0x90, 6, 0, 0, 0, 0xC3, 0xC3]));
}

#[test]
fn some_systems_are_not_supported() {
    let backend = Backend::new();
    let target = Target::parse("aarch64-pc-windows").unwrap();
    assert!(backend.machine(&target).is_err());
    assert!(backend.emit_module(&module(), &target).is_err());
    let linux = Target::parse("x86_64-unknown-linux").unwrap();
    assert!(matches!(backend.machine(&linux), Ok(Machine::X86(_))));
    let mac = Target::parse("aarch64-apple-darwin").unwrap();
    assert!(matches!(backend.machine(&mac), Ok(Machine::Arm(_))));
}

#[test]
fn targets_are_listed() {
    assert_eq!(list_targets(), vec!["x86_64-unknown-linux".to_owned()]);
    for target in list_targets() {
        let target = Target::parse(&target).unwrap();
        assert!(Backend::new().machine(&target).is_ok());
    }
}

#[test]
fn stack_places_are_aligned() {
    assert_eq!(round_up_u32(0, 8), 0);
    assert_eq!(round_up_u32(9, 8), 16);
    let mut state = BackendState::new();
    assert_eq!(state.alloc_stack(Layout { size: 1, align: 1 }), 1);
    assert_eq!(state.alloc_stack(Layout { size: 8, align: 8 }), 16);
    assert_eq!(state.stack_size, 16);
}

#[test]
fn stack_places_end_at_aligned_distances() {
    let mut state = BackendState::new();
    assert_eq!(state.alloc_stack(Layout { size: 5, align: 4 }), 8);
    assert_eq!(state.alloc_stack(Layout { size: 1, align: 1 }), 9);
    assert_eq!(state.alloc_stack(Layout { size: 12, align: 8 }), 24);
}

#[test]
fn relocations_are_eight_bytes() {
    let r = RelocationInfo { address: 1, info: 0x2D000003 };
    assert_eq!(r.bytes(), vec![1, 0, 0, 0, 3, 0, 0, 0x2D]);
}

#[test]
fn relocations_are_packed() {
    let r = RelocationInfo::new(
        8,
        SymbolNum(5),
        true,
        RelocationLength::L4,
        true,
        RelocationTypeX86_64::Branch,
    );
    assert_eq!(r.address, 8);
    assert_eq!(r.info & 0xFF_FFFF, 5);
    assert_eq!(r.info >> 24 & 1, 1);
    assert_eq!(r.info >> 25 & 3, 2);
    assert_eq!(r.info >> 27 & 1, 1);
    assert_eq!(r.info >> 28, 2);
}

#[test]
fn added_strings_are_found() {
    let mut w = ElfObjectWriter::new();
    let a = w.add_str("main");
    let b = w.add_str("puts");
    assert_eq!(w.strtab[a as usize..a as usize + 5], *b"main\0");
    assert_eq!(w.strtab[b as usize..b as usize + 5], *b"puts\0");
    let mut t = SymTab::new();
    let c = t.str("main", true);
    assert_eq!(t.s[c.0 as usize..c.0 as usize + 6], *b"_main\0");
}

#[test]
fn symbols_have_a_fixed_size() {
    let mut w = SymtabWriter::new();
    let entry = |bind| Entry {
        name_index: 1,
        bind,
        ty: Type::Function,
        visibility: Visibility::Default,
        section_index: SectionIdx::none(),
        value: 0,
        size: 0,
    };
    let first = w.entry(entry(Bind::Local));
    let second = w.entry(entry(Bind::Global));
    assert_eq!((first.0, second.0), (1, 2));
    let (header, contents) = w.finish(SectionIdx::none());
    assert_eq!(contents.len(), 3 * 24);
    assert_eq!(header.entsize, 24);
    // the first symbol that is not local
    assert_eq!(header.info, 2);
}
