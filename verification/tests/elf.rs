use pie::elf::{
    inspect, parse, read_cstr, u16_at, u32_at, u64_at, vaddr_to_offset, ElfError, ElfInfo, Headers,
    InspectError, DF_1_PIE, DT_FLAGS_1, DT_NEEDED, DT_NULL, DT_STRTAB, ET_DYN, PT_DYNAMIC,
    PT_INTERP,
};

/// Builds a minimal but structurally valid ELF64 image so the parser is
/// exercised end to end — program headers, dynamic section, and the
/// vaddr→offset mapping used to reach the string table.
struct ElfBuilder {
    e_type: u16,
    interp: bool,
    flags_1: Option<u64>,
    needed: Vec<&'static str>,
}

impl ElfBuilder {
    fn pie() -> Self {
        Self {
            e_type: ET_DYN,
            interp: true,
            flags_1: Some(DF_1_PIE),
            needed: vec!["libc.so.6"],
        }
    }

    fn build(&self) -> Vec<u8> {
        const PHDR_OFF: usize = 64;
        const PHDR_SIZE: usize = 56;
        const INTERP_OFF: usize = 232;
        const DYN_OFF: usize = 320;
        const STRTAB_OFF: usize = 640;

        let mut strtab = vec![0u8];
        let mut needed_offsets = Vec::new();
        for lib in &self.needed {
            needed_offsets.push(strtab.len() as u64);
            strtab.extend_from_slice(lib.as_bytes());
            strtab.push(0);
        }

        let mut dynamic: Vec<(u64, u64)> = Vec::new();
        for offset in &needed_offsets {
            dynamic.push((DT_NEEDED, *offset));
        }
        dynamic.push((DT_STRTAB, STRTAB_OFF as u64));
        if let Some(flags) = self.flags_1 {
            dynamic.push((DT_FLAGS_1, flags));
        }
        dynamic.push((DT_NULL, 0));

        let total = STRTAB_OFF + strtab.len();
        let mut image = vec![0u8; total];

        image[0..4].copy_from_slice(b"\x7fELF");
        image[4] = 2; // ELFCLASS64
        image[5] = 1; // ELFDATA2LSB
        image[6] = 1; // EV_CURRENT
        image[16..18].copy_from_slice(&self.e_type.to_le_bytes());
        image[32..40].copy_from_slice(&(PHDR_OFF as u64).to_le_bytes());
        image[54..56].copy_from_slice(&(PHDR_SIZE as u16).to_le_bytes());

        let mut phdrs: Vec<(u32, u64, u64)> = vec![
            // PT_LOAD covering the whole image, mapping vaddr == offset.
            (1, 0, total as u64),
            (PT_DYNAMIC, DYN_OFF as u64, (dynamic.len() * 16) as u64),
        ];
        if self.interp {
            phdrs.push((PT_INTERP, INTERP_OFF as u64, 20));
        }
        image[56..58].copy_from_slice(&(phdrs.len() as u16).to_le_bytes());

        for (index, (p_type, offset, filesz)) in phdrs.iter().enumerate() {
            let base = PHDR_OFF + index * PHDR_SIZE;
            image[base..base + 4].copy_from_slice(&p_type.to_le_bytes());
            image[base + 8..base + 16].copy_from_slice(&offset.to_le_bytes());
            image[base + 16..base + 24].copy_from_slice(&offset.to_le_bytes());
            image[base + 32..base + 40].copy_from_slice(&filesz.to_le_bytes());
        }

        image[INTERP_OFF..INTERP_OFF + 19].copy_from_slice(b"/lib64/ld-linux.so\0");

        for (index, (tag, value)) in dynamic.iter().enumerate() {
            let base = DYN_OFF + index * 16;
            image[base..base + 8].copy_from_slice(&tag.to_le_bytes());
            image[base + 8..base + 16].copy_from_slice(&value.to_le_bytes());
        }

        image[STRTAB_OFF..STRTAB_OFF + strtab.len()].copy_from_slice(&strtab);
        image
    }
}

#[test]
fn accepts_a_real_pie_executable() {
    let info = parse(&ElfBuilder::pie().build()).expect("parses");
    assert!(info.is_dyn);
    assert!(info.has_pie_flag);
    assert!(info.has_interp);
    assert!(info.is_pie_executable());
    assert_eq!(info.needed, vec!["libc.so.6".to_string()]);
}

/// The case the whole verification exists for: a shared library is also
/// ET_DYN, so type alone would wrongly pass it.
#[test]
fn rejects_a_shared_library() {
    let mut builder = ElfBuilder::pie();
    builder.interp = false;
    let info = parse(&builder.build()).expect("parses");
    assert!(info.is_dyn, "a shared library is still ET_DYN");
    assert!(!info.is_pie_executable());
    assert!(info.explain_failure().contains("PT_INTERP"));
}

#[test]
fn rejects_a_fixed_address_executable() {
    let mut builder = ElfBuilder::pie();
    builder.e_type = 2; // ET_EXEC
    builder.flags_1 = None;
    let info = parse(&builder.build()).expect("parses");
    assert!(!info.is_pie_executable());
    assert!(info.explain_failure().contains("DYN"));
}

/// DT_FLAGS_1 present but without the PIE bit must not count.
#[test]
fn rejects_dyn_without_the_pie_bit() {
    let mut builder = ElfBuilder::pie();
    builder.flags_1 = Some(0x0000_0001); // DF_1_NOW
    let info = parse(&builder.build()).expect("parses");
    assert!(info.is_dyn && info.has_interp);
    assert!(!info.has_pie_flag);
    assert!(!info.is_pie_executable());
}

#[test]
fn reads_every_needed_library() {
    let mut builder = ElfBuilder::pie();
    builder.needed = vec!["libc.so.6", "libm.so.6", "libssl.so.3"];
    let info = parse(&builder.build()).expect("parses");
    assert_eq!(info.needed, vec!["libc.so.6", "libm.so.6", "libssl.so.3"]);
}

#[test]
fn rejects_32_bit_and_big_endian() {
    let mut image = ElfBuilder::pie().build();
    image[4] = 1; // ELFCLASS32
    assert!(parse(&image).is_err());
    assert_eq!(parse(&image).unwrap_err(), ElfError::NotElf64);

    let mut image = ElfBuilder::pie().build();
    image[5] = 2; // ELFDATA2MSB
    assert!(parse(&image).is_err());
    assert_eq!(parse(&image).unwrap_err(), ElfError::NotLittleEndian);
}

#[test]
fn rejects_non_elf() {
    assert!(parse(&[0u8; 128]).is_err());
    assert_eq!(parse(&[0u8; 128]).unwrap_err().message(), "not an ELF file");
}

#[test]
fn rejects_truncated() {
    assert!(parse(b"\x7fELF").is_err());
}

#[test]
fn failure_explanation_lists_every_reason() {
    let info = ElfInfo {
        is_dyn: false,
        has_pie_flag: false,
        has_interp: false,
        needed: vec![],
    };
    assert!(!info.is_pie_executable());
    assert_eq!(info.explain_failure().matches(';').count(), 2);
    assert_eq!(
        info.explain_failure(),
        "ELF type is not DYN (built as a fixed-address executable); \
         DT_FLAGS_1 does not carry PIE; \
         no PT_INTERP segment (this is a shared library, not an executable)"
    );
}

#[test]
fn reads_little_endian_numbers() {
    let bytes = [1u8, 2, 3, 4, 5, 6, 7, 8];
    assert_eq!(u16_at(&bytes, 0).unwrap(), 0x0201);
    assert_eq!(u32_at(&bytes, 4).unwrap(), 0x0807_0605);
    assert_eq!(u64_at(&bytes, 0).unwrap(), 0x0807_0605_0403_0201);
    assert_eq!(u16_at(&bytes, 7).unwrap_err(), ElfError::Truncated(2));
    assert_eq!(u32_at(&bytes, 5).unwrap_err(), ElfError::Truncated(4));
    assert_eq!(u64_at(&bytes, 1).unwrap_err(), ElfError::Truncated(8));
    assert_eq!(u64_at(&bytes, u64::MAX).unwrap_err(), ElfError::Truncated(8));
}

#[test]
fn program_headers_past_the_end_are_truncated() {
    let mut image = ElfBuilder::pie().build();
    image[32..40].copy_from_slice(&u64::MAX.to_le_bytes());
    assert_eq!(parse(&image).unwrap_err(), ElfError::Truncated(4));
    assert_eq!(
        parse(&image).unwrap_err().message(),
        "truncated ELF: expected 4 bytes"
    );
}

#[test]
fn unmapped_string_table_is_an_error() {
    let mut image = ElfBuilder::pie().build();
    // The value of DT_STRTAB is the second entry of the dynamic section.
    image[320 + 16 + 8..320 + 16 + 16].copy_from_slice(&0x9_0000u64.to_le_bytes());
    assert_eq!(parse(&image).unwrap_err(), ElfError::Unmapped(0x9_0000));
    assert_eq!(
        parse(&image).unwrap_err().message(),
        "could not map vaddr 0x90000 to a file offset"
    );
}

#[test]
fn maps_addresses_through_loaded_segments() {
    let image = ElfBuilder::pie().build();
    let headers = Headers {
        offset: 64,
        entry_size: 56,
        count: 3,
    };
    assert_eq!(vaddr_to_offset(&image, 640, &headers).unwrap(), 640);
    assert_eq!(
        vaddr_to_offset(&image, 0x9_0000, &headers).unwrap_err(),
        ElfError::Unmapped(0x9_0000)
    );
}

#[test]
fn reads_terminated_text_only() {
    assert_eq!(read_cstr(b"abc\0def", 0), Some("abc".to_string()));
    assert_eq!(read_cstr(b"abc\0def", 4), None);
    assert_eq!(read_cstr(b"\xff\0", 0), None);
    assert_eq!(read_cstr("é\0".as_bytes(), 0), Some("é".to_string()));
    assert_eq!(read_cstr(b"abc\0", 9), None);
}

#[test]
fn inspection_says_what_it_was_doing() {
    let err = inspect("/bin/x", Err("no such file".to_string())).unwrap_err();
    assert_eq!(err.message(), "reading /bin/x: no such file");
    let err = inspect("/bin/x", Ok(vec![0u8; 3])).unwrap_err();
    assert_eq!(err.message(), "parsing /bin/x: not an ELF file");
    assert!(matches!(
        err,
        InspectError::Parsing {
            error: ElfError::NotElf,
            ..
        }
    ));
    let info = inspect("/bin/x", Ok(ElfBuilder::pie().build())).unwrap();
    assert!(info.is_pie_executable());
}
