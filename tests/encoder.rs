use qr_generator::galois::{exponent_galois, reverse_exponent_galois};
use qr_generator::polynomial::{div_polynomial, generator_polynomial, Polynomial};
use qr_generator::qr_code::{Matrix, Module, QRcode};
use qr_generator::reed_solomon::{
    add_padding_without_prefix, get_array_bin_polynomial, get_bin_msg_data, get_error_correction_level_data,
    QrError, ReedSolomonData,
};
use qr_generator::tables::{ByteNameOfMode, ErrorLevel, Mask};
use qr_generator::utils::{
    apply_mask, capacity, full_capacity, get_alignment, get_codewords_number, get_len_bit,
    get_total_module_data_version, mask,
};

fn rows_of(q: &QRcode) -> Vec<String> {
    let mut rows = Vec::new();
    for row in &q.qrcode.matrix {
        let mut s = String::new();
        for cell in row {
            s.push(match cell {
                Module::Dark => '#',
                Module::Light => '.',
                Module::Unset => '?',
            });
        }
        rows.push(s);
    }
    rows
}

fn bits_to_bytes(bits: &[u8]) -> Vec<u8> {
    bits.chunks(8)
        .map(|c| c.iter().fold(0u8, |acc, b| acc * 2 + b))
        .collect()
}

#[test]
fn test_qrcode_version() {
    let qrcode: QRcode = QRcode::new("https://youtu.be/dQw4w9WgXcQ", 1, ErrorLevel::H, Mask::_100).unwrap();
    assert_eq!(qrcode.rs.version, 4);
}

#[test]
fn exponent_is_periodic() {
    for e in 0u32..600 {
        assert_eq!(exponent_galois(e), exponent_galois(e + 255));
    }
    assert_eq!(exponent_galois(0), 1);
    assert_eq!(exponent_galois(8), 29);
    assert_eq!(exponent_galois(254), 142);
}

#[test]
fn log_inverts_exponent() {
    for e in 0u32..255 {
        assert_eq!(reverse_exponent_galois(exponent_galois(e)), e % 255);
    }
    assert_eq!(reverse_exponent_galois(0), 0);
}

#[test]
fn generator_has_published_coefficients() {
    for n in 1..=30 {
        assert_eq!(generator_polynomial(n).data.len(), (n + 1) as usize);
    }
    let g = generator_polynomial(7);
    let alphas: Vec<i16> = g.data.iter().map(|t| t.1).collect();
    assert_eq!(alphas, vec![0, 87, 229, 146, 149, 238, 102, 21]);
    let exps: Vec<i16> = g.data.iter().map(|t| t.0).collect();
    assert_eq!(exps, vec![7, 6, 5, 4, 3, 2, 1, 0]);
}

#[test]
fn division_reproduces_published_codewords() {
    let mut msg: Vec<i16> = vec![32, 91, 11, 120, 209, 114, 220, 77, 67, 64, 236, 17, 236, 17, 236, 17];
    let r = div_polynomial(&mut msg, 10);
    let values: Vec<i16> = r.data.iter().map(|t| t.2).collect();
    assert_eq!(values, vec![196, 35, 39, 119, 235, 215, 231, 226, 93, 23]);
    let exps: Vec<i16> = r.data.iter().map(|t| t.0).collect();
    assert_eq!(exps, vec![9, 8, 7, 6, 5, 4, 3, 2, 1, 0]);
}

#[test]
fn zero_message_gives_zero_remainder() {
    for k in 1..20usize {
        for r in [7i16, 10, 13, 30] {
            let mut msg: Vec<i16> = vec![0; k];
            let p = div_polynomial(&mut msg, r);
            assert_eq!(p.data.len(), r as usize);
            assert!(p.data.iter().all(|t| t.2 == 0));
        }
    }
}

#[test]
fn byte_message_golden_codewords() {
    let rs = ReedSolomonData::new("HELLO", ErrorLevel::L, 1, Mask::_000, ByteNameOfMode::Byte).unwrap();
    assert_eq!(rs.version, 1);
    assert_eq!(rs.error_level, ErrorLevel::L);
    assert_eq!(rs.bits.len(), 26 * 8);
    let bytes = bits_to_bytes(&rs.bits);
    assert_eq!(
        bytes,
        vec![
            64, 84, 132, 84, 196, 196, 240, 236, 17, 236, 17, 236, 17, 236, 17, 236, 17, 236, 17, 77, 42,
            211, 187, 159, 32, 132
        ]
    );
}

#[test]
fn ten_characters_fit_version_one() {
    let q = QRcode::new("abcdefghij", 1, ErrorLevel::L, Mask::_000).unwrap();
    assert_eq!(q.rs.version, 1);
    assert_eq!(q.rs.error_level, ErrorLevel::L);
    assert_eq!(q.size, 21);
}

#[test]
fn level_search_order_is_l_q_m_h() {
    let rs = ReedSolomonData::new("abcdefghij", ErrorLevel::M, 1, Mask::_000, ByteNameOfMode::Byte).unwrap();
    assert_eq!(rs.error_level, ErrorLevel::M);
    assert_eq!(rs.version, 1);
    let rs = ReedSolomonData::new("abcdefghij", ErrorLevel::Q, 1, Mask::_000, ByteNameOfMode::Byte).unwrap();
    assert_eq!(rs.error_level, ErrorLevel::Q);
    assert_eq!(rs.version, 1);
}

#[test]
fn too_much_data_is_refused() {
    let data = "a".repeat(3000);
    assert!(matches!(QRcode::new(&data, 1, ErrorLevel::L, Mask::_000), Err(QrError::CapacityExceeded)));
    let data = "a".repeat(2954);
    assert!(matches!(QRcode::new(&data, 1, ErrorLevel::H, Mask::_000), Err(QrError::CapacityExceeded)));
    let data = "a".repeat(2953);
    let q = QRcode::new(&data, 1, ErrorLevel::L, Mask::_000).unwrap();
    assert_eq!(q.rs.version, 40);
}

#[test]
fn empty_input_makes_a_symbol() {
    let mut q = QRcode::new("", 1, ErrorLevel::L, Mask::_010).unwrap();
    assert_eq!(q.rs.version, 1);
    q.render();
    let rows = rows_of(&q);
    assert_eq!(rows.len(), 27);
    assert!(rows.iter().all(|r| !r.contains('?')));
}

#[test]
fn hello_snapshot() {
    let mut q = QRcode::new("HELLO", 1, ErrorLevel::L, Mask::_000).unwrap();
    q.render();
    let expected = vec![
        "...........................",
        "...........................",
        "...........................",
        "...#######..#.##.#######...",
        "...#.....#..###..#.....#...",
        "...#.###.#.##.##.#.###.#...",
        "...#.###.#..#.#..#.###.#...",
        "...#.###.#...#.#.#.###.#...",
        "...#.....#.....#.#.....#...",
        "...#######.#.#.#.#######...",
        "...........##.##...........",
        "...###.########.##...#.....",
        "......#....#.....#....#....",
        "...#.#...#...#.#...#####...",
        "...##..#...#.#...#....#....",
        "...#.#..##..##.#.#.#.#.....",
        "...........##.#.#.#..##....",
        "...#######.#..#.###..###...",
        "...#.....#.######.##.......",
        "...#.###.#.#..#.###..###...",
        "...#.###.#...#...##..##....",
        "...#.###.#.###.#...#.#.#...",
        "...#.....#.##....#.#..#....",
        "...#######.##..#.##..###...",
        "...........................",
        "...........................",
        "..........................."
    ];
    assert_eq!(rows_of(&q), expected);
}

#[test]
fn rendered_symbols_have_finders_and_no_unset_cells() {
    for (data, level, m) in [
        ("HELLO WORLD", ErrorLevel::M, Mask::_011),
        ("https://youtu.be/dQw4w9WgXcQ", ErrorLevel::H, Mask::_100),
        ("a longer message that needs a version with alignment and version blocks, 123456789", ErrorLevel::Q, Mask::_111),
    ] {
        let mut q = QRcode::new(data, 1, level, m).unwrap();
        let size = q.size as usize;
        q.render();
        let rows = rows_of(&q);
        assert!(rows.iter().all(|r| !r.contains('?')));
        let finder = ["#######.", "#.....#.", "#.###.#.", "#.###.#.", "#.###.#.", "#.....#.", "#######.", "........"];
        for y in 0..8 {
            assert_eq!(&rows[3 + y][3..11], finder[y]);
            let right: String = finder[y].chars().rev().collect();
            assert_eq!(&rows[3 + y][3 + size - 8..3 + size], right.as_str());
            assert_eq!(&rows[3 + size - 1 - y][3..11], finder[y]);
        }
        // The two copies of the format information agree.
        let cell = |x: usize, y: usize| rows[3 + y].as_bytes()[3 + x];
        let mut a = Vec::new();
        let mut b = Vec::new();
        for x in 0..6 {
            a.push(cell(x, 8));
        }
        a.push(cell(7, 8));
        a.push(cell(8, 8));
        a.push(cell(8, 7));
        for y in (0..6).rev() {
            a.push(cell(8, y));
        }
        for y in (size - 7..size).rev() {
            b.push(cell(8, y));
        }
        for x in size - 8..size {
            b.push(cell(x, 8));
        }
        assert_eq!(a, b);
    }
}

#[test]
fn masking_twice_restores_the_bit() {
    let masks = [Mask::_000, Mask::_001, Mask::_010, Mask::_011, Mask::_100, Mask::_101, Mask::_110, Mask::_111];
    for m in masks {
        for col in 0..30u16 {
            for row in 0..30u16 {
                for bit in 0..2u8 {
                    assert_eq!(apply_mask(m, col, row, apply_mask(m, col, row, bit)), bit);
                }
            }
        }
    }
    assert!(mask(Mask::_000, 1, 1));
    assert!(!mask(Mask::_000, 1, 2));
    assert!(mask(Mask::_100, 2, 1));
    assert!(!mask(Mask::_100, 3, 0));
    assert_eq!(apply_mask(Mask::_000, 0, 0, 1), 0);
    assert_eq!(apply_mask(Mask::_000, 0, 1, 1), 1);
}

#[test]
fn table_lookups() {
    assert_eq!(get_total_module_data_version(1), 208);
    assert_eq!(get_total_module_data_version(2), 359);
    assert_eq!(get_total_module_data_version(7), 1568);
    assert_eq!(get_total_module_data_version(40), 29648);
    assert_eq!(get_codewords_number(1, &ErrorLevel::L), 19);
    assert_eq!(get_codewords_number(5, &ErrorLevel::Q), 62);
    assert_eq!(get_codewords_number(40, &ErrorLevel::H), 1276);
    assert_eq!(get_len_bit(&ByteNameOfMode::Byte, 9), 8);
    assert_eq!(get_len_bit(&ByteNameOfMode::Byte, 10), 16);
    assert_eq!(get_len_bit(&ByteNameOfMode::Numeric, 27), 14);
    assert_eq!(capacity(144), vec![18, 43, 26, 11]);
    assert_eq!(full_capacity(1, &ErrorLevel::L, &ByteNameOfMode::Byte), 17);
    assert_eq!(full_capacity(4, &ErrorLevel::H, &ByteNameOfMode::Byte), 34);
    assert_eq!(get_alignment(2), vec![6, 18]);
    assert_eq!(get_alignment(7), vec![6, 22, 38]);
    assert_eq!(get_alignment(14), vec![6, 26, 46, 66]);
    assert_eq!(get_alignment(40), vec![6, 30, 58, 86, 114, 142, 170]);
}

#[test]
fn format_and_version_strings() {
    let rs = ReedSolomonData::new("HELLO", ErrorLevel::L, 1, Mask::_000, ByteNameOfMode::Byte).unwrap();
    let f: String = rs.create_format_string().iter().map(|b| if *b == 1 { '1' } else { '0' }).collect();
    assert_eq!(f, "111011111000100");
    let data = "a".repeat(120);
    let rs = ReedSolomonData::new(&data, ErrorLevel::L, 7, Mask::_000, ByteNameOfMode::Byte).unwrap();
    assert_eq!(rs.version, 7);
    let v: String = rs.create_version_string().iter().map(|b| if *b == 1 { '1' } else { '0' }).collect();
    assert_eq!(v, "000111110010010100");
}

#[test]
fn matrix_operations() {
    let mut m: Matrix<u8> = Matrix::create(3, 2, &0);
    m.put((2, 1), 5);
    assert_eq!(m.get((2, 1)), 5);
    m.transpose();
    assert_eq!((m.size_x, m.size_y), (2, 3));
    assert_eq!(m.get((1, 2)), 5);
    let mut s: Matrix<u8> = Matrix::create(3, 3, &0);
    s.put((0, 0), 1);
    s.rotate();
    assert_eq!(s.get((2, 0)), 1);
    let mut big: Matrix<u8> = Matrix::create(5, 5, &9);
    big.put_matrix((1, 2), &s);
    assert_eq!(big.get((3, 2)), 1);
    assert_eq!(big.get((0, 0)), 9);
    big.put_vec((0, 4), &vec![7, 7, 7], true);
    assert_eq!(big.get((2, 4)), 7);
    let mut p = Polynomial::new_default();
    p.push((3, 1, 2));
    assert_eq!(p.find_polynomial(3), Some(0));
    assert_eq!(p.find_polynomial(4), None);
}

#[test]
fn message_bits_and_block_layout() {
    assert_eq!(get_bin_msg_data(&vec![65, 1]), vec![0, 1, 0, 0, 0, 0, 0, 1, 0, 0, 0, 0, 0, 0, 0, 1]);
    assert_eq!(get_bin_msg_data(&vec![]), Vec::<u8>::new());
    assert_eq!(get_error_correction_level_data(5, &ErrorLevel::Q), (62, 4, [2, 2], [15, 16], 18));
    assert_eq!(get_error_correction_level_data(1, &ErrorLevel::L), (19, 1, [1, 0], [19, 20], 7));
}

#[test]
fn alignment_coordinates_follow_the_standard_table() {
    assert_eq!(get_alignment(32), vec![6, 34, 60, 86, 112, 138]);
    assert_eq!(get_alignment(31), vec![6, 30, 56, 82, 108, 134]);
    assert_eq!(get_alignment(33), vec![6, 30, 58, 86, 114, 142]);
    assert_eq!(get_alignment(36), vec![6, 24, 50, 76, 102, 128, 154]);
}

#[test]
fn empty_operands_give_an_empty_product() {
    let empty = Polynomial::new_default();
    let p = Polynomial::new(vec![(1, 0, 1), (0, 3, 8)]);
    assert!(p.multiply_by_poly(Polynomial::new_default()).data.is_empty());
    assert!(empty.multiply_by_exp(vec![(0, 2, 4)]).data.is_empty());
}

#[test]
fn rotating_a_non_square_matrix_swaps_its_sides() {
    let mut m: Matrix<u8> = Matrix::create(3, 2, &0);
    m.put((0, 0), 1);
    m.put((2, 1), 2);
    m.rotate();
    assert_eq!((m.size_x, m.size_y), (2, 3));
    assert_eq!(m.get((1, 0)), 1);
    assert_eq!(m.get((0, 2)), 2);
}

#[test]
fn empty_vector_at_the_far_edge_writes_nothing() {
    let mut m: Matrix<u8> = Matrix::create(4, 4, &5);
    m.put_vec((4, 0), &vec![], true);
    m.put_vec((0, 4), &vec![], false);
    for y in 0..4 {
        for x in 0..4 {
            assert_eq!(m.get((x, y)), 5);
        }
    }
}

#[test]
fn version_two_symbol_is_complete() {
    let data = "a".repeat(20);
    let mut q = QRcode::new(&data, 1, ErrorLevel::L, Mask::_000).unwrap();
    assert_eq!(q.rs.version, 2);
    q.render();
    let rows = rows_of(&q);
    assert_eq!(rows.len(), 31);
    assert!(rows.iter().all(|r| !r.contains('?')));
    // The alignment block centred at (18, 18), shifted by the margin.
    let block = ["#####", "#...#", "#.#.#", "#...#", "#####"];
    for y in 0..5 {
        assert_eq!(&rows[3 + 16 + y][3 + 16..3 + 21], block[y]);
    }
}

#[test]
fn every_version_renders_without_unset_cells() {
    let masks = [Mask::_000, Mask::_001, Mask::_010, Mask::_011, Mask::_100, Mask::_101, Mask::_110, Mask::_111];
    for v in 1..=40u8 {
        let mut q = QRcode::new("abc", v, ErrorLevel::M, masks[(v % 8) as usize]).unwrap();
        assert_eq!(q.rs.version, v);
        assert_eq!(q.size as usize, 17 + 4 * v as usize);
        q.render();
        for row in &q.qrcode.matrix {
            assert!(row.iter().all(|c| *c != Module::Unset), "version {}", v);
        }
    }
}

#[test]
fn generator_bits_and_padded_values() {
    let fmt: Vec<u8> = get_array_bin_polynomial(0, 10);
    assert_eq!(fmt, vec![1, 0, 1, 0, 0, 1, 1, 0, 1, 1, 1]);
    let ver: Vec<u8> = get_array_bin_polynomial(1, 12);
    assert_eq!(ver, vec![1, 1, 1, 1, 1, 0, 0, 1, 0, 0, 1, 0, 1]);
    assert_eq!(add_padding_without_prefix(&vec![0, 1, 0, 0, 0], 15), 0b010000000000000);
    assert_eq!(add_padding_without_prefix(&vec![1, 1, 0, 1], 2), 0b11);
    assert_eq!(add_padding_without_prefix(&vec![], 4), 0);
}
