use braillefb::{get_char, to_char, Framebuffer, Offsets};

#[test]
fn single_chars() {
    let framebuffer = vec![
        true, false, //
        true, true, //
        false, false, //
        false, false,
    ];
    let f = Framebuffer::new(&framebuffer, 2, 4);
    assert_eq!(Some('⠓'), f.get(0));
    assert_eq!(Some('\n'), f.get(1));
    assert_eq!(None, f.get(2));

    let framebuffer = vec![
        true, false, //
        true, false, //
        true, false, //
        true, true,
    ];
    let f = Framebuffer::new(&framebuffer, 2, 4);
    assert_eq!(Some('⣇'), f.get(0));
    assert_eq!(Some('\n'), f.get(1));
    assert_eq!(None, f.get(2));
}

#[test]
fn multiple_chars() {
    // ⣇⠽
    // ⡛⡼
    let framebuffer = vec![
        true, false, true, true, //
        true, false, false, true, //
        true, false, true, true, //
        true, true, false, false, //
        true, true, false, true, //
        true, true, false, true, //
        false, false, true, true, //
        true, false, true, false,
    ];
    let f = Framebuffer::new(&framebuffer, 4, 8);

    assert_eq!(Some('⣇'), f.get(0));
    assert_eq!(Some('⠽'), f.get(1));
    assert_eq!(Some('\n'), f.get(2));
    assert_eq!(Some('⡛'), f.get(3));
    assert_eq!(Some('⡼'), f.get(4));
}

#[test]
fn len() {
    // # #
    // # #
    // # #
    // # #
    // \n
    let framebuffer = vec![false; 2 * 4];
    let f = Framebuffer::new(&framebuffer, 2, 4);
    assert_eq!(2, f.len());

    // # # # #
    // # # # #
    // # # # #
    // # # # #
    // \n
    // # # # #
    // # # # #
    // # # # #
    // # # # #
    // \n
    let framebuffer = vec![false; 4 * 8];
    let f = Framebuffer::new(&framebuffer, 4, 8);
    assert_eq!(6, f.len());

    // # # # .
    // # # # .
    // # # # .
    // # # # .
    // \n
    // # # # .
    // . . . .
    // . . . .
    // . . . .
    // \n
    let framebuffer = vec![false; 3 * 5];
    let f = Framebuffer::new(&framebuffer, 3, 5);
    assert_eq!(6, f.len());
}

#[test]
fn padding() {
    // ⠇⠅
    // ⠉⠁
    let framebuffer = vec![
        true, false, true, //
        true, false, false, //
        true, false, true, //
        false, false, false, //
        true, true, true,
    ];
    let f = Framebuffer::new(&framebuffer, 3, 5);

    assert_eq!(Some('⠇'), f.get(0));
    assert_eq!(Some('⠅'), f.get(1));
    assert_eq!(Some('\n'), f.get(2));

    assert_eq!(Some('⠉'), f.get(3));
    assert_eq!(Some('⠁'), f.get(4));
    assert_eq!(Some('\n'), f.get(5));
}

#[test]
fn test_to_char() {
    // ⢗
    assert_eq!(
        '⢗',
        to_char([
            true, false, //
            true, true, //
            true, false, //
            false, true,
        ])
    );
}

#[test]
fn test_get_char() {
    // ⠇⠅
    // ⠉⠁
    let framebuffer = vec![
        true, false, true, //
        true, false, false, //
        true, false, true, //
        false, false, false, //
        true, true, true,
    ];

    assert_eq!('⠇', get_char(&framebuffer, 0, 0, 3, 5));
    assert_eq!('⠅', get_char(&framebuffer, 2, 0, 3, 5));
    assert_eq!('⠉', get_char(&framebuffer, 0, 4, 3, 5));
    assert_eq!('⠁', get_char(&framebuffer, 2, 4, 3, 5));
}

#[test]
fn offsets() {
    // 0 # 1 #
    // # # # #
    // # # # #
    // # # # #
    // 2 \n
    // 3 # 4 #
    // # # # #
    // # # # #
    // # # # #
    // 5 \n
    // 6 # 7 #
    // # # # #
    // # # # #
    // # # # #
    // 8 \n
    fn check(f: Framebuffer) {
        // Row 1
        assert_eq!(Offsets::Char(0, 0), f.offsets(0));
        assert_eq!(Offsets::Char(2, 0), f.offsets(1));
        assert_eq!(Offsets::Linebreak, f.offsets(2));

        // Row 2
        assert_eq!(Offsets::Char(0, 4), f.offsets(3));
        assert_eq!(Offsets::Char(2, 4), f.offsets(4));
        assert_eq!(Offsets::Linebreak, f.offsets(5));

        // Row 3
        assert_eq!(Offsets::Char(0, 8), f.offsets(6));
        assert_eq!(Offsets::Char(2, 8), f.offsets(7));
        assert_eq!(Offsets::Linebreak, f.offsets(8));

        assert_eq!(Offsets::End, f.offsets(9));
    }

    let framebuffer = vec![false; 4 * 12];
    let f = Framebuffer::new(&framebuffer, 4, 12);
    check(f);

    // Width - 1 and height - 1 here to test offsets work when they need padding
    let framebuffer = vec![false; 3 * 11];
    let f = Framebuffer::new(&framebuffer, 3, 11);
    check(f);
}

#[test]
fn chars() {
    let chars = (0..256)
        .map(|i| char::from_u32(0x2800 + i as u32).unwrap())
        .collect::<Vec<_>>();
    let produced = (0..256)
        .map(|i| braillefb::braille_char(i as u8))
        .collect::<Vec<_>>();
    assert_eq!(produced, chars);
}
