use parsiphae::dat::{DatError, GothicDat, SymbolSpecific, SymbolType};
use parsiphae::ppa::symbols::zPAR_TYPE;
use parsiphae::types::Identifier;

fn word(v: u32) -> Vec<u8> {
    v.to_le_bytes().to_vec()
}

/// A symbol with the given name, count, type number and flags, then `content`.
fn symbol(name: &[u8], count: u16, typ: u16, flags: u16, content: &[u8]) -> Vec<u8> {
    let mut s = word(1);
    s.extend_from_slice(name);
    s.push(b'\n');
    s.extend(word(7));
    s.extend(((typ << 12) | count).to_le_bytes());
    s.extend(flags.to_le_bytes());
    for w in [3u32, 10, 2, 100, 20] {
        s.extend(word(w));
    }
    s.extend_from_slice(content);
    s.extend(word(0xFFFF_FFFF));
    s
}

fn file(symbols: &[Vec<u8>], bytecode: &[u8]) -> Vec<u8> {
    let mut f = vec![0x32u8];
    f.extend(word(symbols.len() as u32));
    for k in 0..symbols.len() {
        f.extend(word(k as u32));
    }
    for s in symbols {
        f.extend_from_slice(s);
    }
    f.extend(word(bytecode.len() as u32));
    f.extend_from_slice(bytecode);
    f
}

#[test]
fn reads_symbols_and_bytecode() {
    let mut strings = b"hello\n".to_vec();
    strings.extend_from_slice(b"world\n");
    let data = file(
        &[
            symbol(b"MAX", 1, 2, 1, &word(42)),
            symbol(b"NAMES", 2, 3, 1, &strings),
            symbol(b"FOO", 0, 5, 0, &word(0x1234)),
            symbol(b"C_NPC.ID", 1, 2, 4, &[]),
        ],
        &[0x4B, 0x3C],
    );
    let (dat, used) = GothicDat::from_bytes(&data).unwrap();
    assert_eq!(used, data.len());
    assert_eq!(dat.version, 0x32);
    assert_eq!(dat.num_symbols, 4);
    assert_eq!(dat.bytecode_size, 2);
    assert_eq!(dat.symbols_sorted, vec![0, 1, 2, 3]);
    assert_eq!(dat.bytecode, vec![0x4B, 0x3C]);
    let max = &dat.symbols[0];
    assert_eq!(max.name, b"MAX\n".to_vec());
    assert_eq!(max.off_cls_ret, 7);
    assert_eq!(max.count, 1);
    assert_eq!(max.typ, SymbolType::Int);
    assert_eq!(max.flags.0, 1);
    assert_eq!((max.file_index, max.line_start, max.line_count), (3, 10, 2));
    assert_eq!((max.char_start, max.char_count), (100, 20));
    assert_eq!(max.symbol_data, Some(SymbolSpecific::IntData(vec![42])));
    assert_eq!(max.parent, 0xFFFF_FFFF);
    match &dat.symbols[1].symbol_data {
        Some(SymbolSpecific::StringData(v)) => {
            assert_eq!(v.len(), 2);
            assert_eq!(v[0].data, b"hello\n".to_vec());
            assert_eq!(v[1].data, b"world\n".to_vec());
        }
        other => panic!("unexpected {:?}", other),
    }
    assert_eq!(dat.symbols[2].symbol_data.as_ref().unwrap().get_funclike(), Some(0x1234));
    assert_eq!(dat.symbols[3].symbol_data, None);
    assert_eq!(GothicDat::parse(&data).unwrap(), dat);
}

#[test]
fn floats_are_kept_as_bits() {
    let data = file(&[symbol(b"F", 1, 1, 1, &1.5f32.to_bits().to_le_bytes())], &[]);
    let dat = GothicDat::parse(&data).unwrap();
    assert_eq!(
        dat.symbols[0].symbol_data,
        Some(SymbolSpecific::FloatData(vec![1.5f32.to_bits()]))
    );
}

#[test]
fn unknown_flag_bits_are_dropped() {
    let data = file(&[symbol(b"X", 0, 0, 0xFFE0 | 0x3, &[])], &[]);
    let dat = GothicDat::parse(&data).unwrap();
    assert_eq!(dat.symbols[0].flags.0, 3);
    assert_eq!(dat.symbols[0].symbol_data, Some(SymbolSpecific::Empty));
}

#[test]
fn bad_files_are_refused() {
    let good = file(&[symbol(b"MAX", 1, 2, 1, &word(42))], &[1, 2, 3]);
    for cut in 0..good.len() {
        assert_eq!(GothicDat::from_bytes(&good[..cut]).unwrap_err(), DatError::Incomplete);
    }
    let bad = file(&[symbol(b"MAX", 1, 9, 1, &word(42))], &[]);
    assert_eq!(GothicDat::parse(&bad).unwrap_err(), DatError::InvalidSymbolType(9));
    let mut longer = good.clone();
    longer.push(0);
    let (read_longer, used) = GothicDat::from_bytes(&longer).unwrap();
    assert_eq!(used, good.len());
    assert_eq!(read_longer, GothicDat::from_bytes(&good).unwrap().0);
}

#[test]
fn symbol_types() {
    assert_eq!(SymbolType::from_u32(2), Some(SymbolType::Int));
    assert_eq!(SymbolType::from_u32(7), Some(SymbolType::Instance));
    assert_eq!(SymbolType::from_u32(8), None);
    assert_eq!(SymbolType::Float.to_zPAR_TYPE(), Some(zPAR_TYPE::Float));
    assert_eq!(SymbolType::Class.to_zPAR_TYPE(), None);
    assert_eq!(SymbolType::Prototype.to_zPAR_TYPE(), None);
    assert_eq!(
        SymbolType::Instance.to_zPAR_TYPE(),
        Some(zPAR_TYPE::Instance(Identifier::new(b"<inst>", (0, 0))))
    );
}
