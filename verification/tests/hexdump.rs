use extfmt::AsHexdump;
use extfmt::Hexdump;

#[test]
fn readme() {
    assert_eq!(
        (&[1u8, 2, 255, 64][..]).as_hexdump().render(),
        "00000000\t01 02 ff 40"
    );
    assert_eq!(64i32.as_hexdump().render(), "00000000\t40 00 00 00");
    assert_eq!(
        64i32.as_hexdump().show_index(false).render(),
        "40 00 00 00"
    );
}

#[test]
fn defaults_single_row() {
    let dump = Hexdump::new(&[1, 2, 3, 4, 5, 6, 255]);
    assert_eq!(dump.render(), "00000000\t01 02 03 04 05 06 ff");
}

#[test]
fn wraps_at_items_per_row() {
    let data: Vec<u8> = (1..=16).collect();
    let rendered = Hexdump::new(&data).items_per_row(12).render();
    assert_eq!(
        rendered,
        "00000000\t01 02 03 04 05 06 07 08 09 0a 0b 0c\n0000000c\t0d 0e 0f 10"
    );
}

#[test]
fn no_index_option() {
    let rendered = Hexdump::new(&[1, 2, 3]).show_index(false).render();
    assert_eq!(rendered, "01 02 03");
}

#[test]
fn empty_buffer_renders_empty() {
    assert_eq!(Hexdump::new(&[]).render(), "");
    assert_eq!(Hexdump::new(&[]).show_index(false).render(), "");
    assert_eq!(Hexdump::new(&[]).items_per_row(1).render(), "");
}

#[test]
fn tokens_and_separators_without_index() {
    let rendered = Hexdump::new(&[1, 2, 3, 4, 5])
        .show_index(false)
        .items_per_row(2)
        .render();
    assert_eq!(rendered, "01 02\n03 04\n05");
    assert_eq!(rendered.len(), 3 * 5 - 1);
}

#[test]
fn row_offsets_with_index() {
    let rendered = Hexdump::new(&[1, 2, 3]).items_per_row(1).render();
    assert_eq!(rendered, "00000000\t01\n00000001\t02\n00000002\t03");
    let rendered = Hexdump::new(&[0xab; 40]).render();
    for (k, row) in rendered.split('\n').enumerate() {
        assert!(row.starts_with(&format!("{:08x}\t", k * 16)));
    }
}

#[test]
fn round_trip_parses_back() {
    let data: Vec<u8> = (0..=255).collect();
    let rendered = Hexdump::new(&data).items_per_row(7).render();
    let parsed: Vec<u8> = rendered
        .split('\n')
        .flat_map(|row| row.split('\t').last().unwrap().split(' '))
        .map(|tok| u8::from_str_radix(tok, 16).unwrap())
        .collect();
    assert_eq!(parsed, data);
}

#[test]
fn unsigned_values_little_endian() {
    assert_eq!(0x1234u16.as_hexdump().render(), "00000000\t34 12");
    assert_eq!(
        0xdeadbeefu32.as_hexdump().show_index(false).render(),
        "ef be ad de"
    );
    assert_eq!(
        1u64.as_hexdump().show_index(false).render(),
        "01 00 00 00 00 00 00 00"
    );
    assert_eq!(7u8.as_hexdump().render(), "00000000\t07");
}

#[test]
fn signed_values_twos_complement() {
    assert_eq!((-1i8).as_hexdump().render(), "00000000\tff");
    assert_eq!(
        (-2i16).as_hexdump().show_index(false).render(),
        "fe ff"
    );
    assert_eq!(
        (-1i32).as_hexdump().show_index(false).render(),
        "ff ff ff ff"
    );
    assert_eq!(
        i64::MIN.as_hexdump().show_index(false).render(),
        "00 00 00 00 00 00 00 80"
    );
}

#[test]
fn builder_keeps_other_options() {
    let rendered = Hexdump::new(&[1, 2, 3, 4])
        .items_per_row(2)
        .show_index(true)
        .render();
    assert_eq!(rendered, "00000000\t01 02\n00000002\t03 04");
}
