use text_compressor::{CodecError, CompressedArr, CompressedLetters, Letter, ParsedArr, ParsedLetters};

fn group(prefix: &[Letter]) -> ParsedLetters {
    let mut g = [Letter::Space; 8];
    for (i, l) in prefix.iter().enumerate() {
        g[i] = *l;
    }
    ParsedLetters(g)
}

#[test]
fn decompression() {
    let encoded = CompressedLetters([0b01110011, 0b10010111, 0b00100100, 0b11011110, 0b00010011]);
    let decoded = ParsedLetters::from_compressed_words(&encoded);

    assert_eq!(
        decoded,
        Ok(ParsedLetters([
            Letter::B,
            Letter::O,
            Letter::O,
            Letter::B,
            Letter::I,
            Letter::E,
            Letter::NextIsAccented,
            Letter::S,
        ]))
    )
}

#[test]
fn compression() {
    let decoded = ParsedLetters([
        Letter::B,
        Letter::O,
        Letter::O,
        Letter::B,
        Letter::I,
        Letter::E,
        Letter::NextIsAccented,
        Letter::S,
    ]);
    let encoded: CompressedLetters = CompressedLetters::from_parsed_words(&decoded);

    assert_eq!(
        encoded,
        CompressedLetters([0b01110011, 0b10010111, 0b00100100, 0b11011110, 0b00010011,])
    );
}

#[test]
fn compress_decompress() {
    let decoded = ParsedLetters([
        Letter::B,
        Letter::O,
        Letter::O,
        Letter::B,
        Letter::I,
        Letter::E,
        Letter::NextIsAccented,
        Letter::S,
    ]);
    let encoded: CompressedLetters = CompressedLetters::from_parsed_words(&decoded);

    let decoded_2 = ParsedLetters::from_compressed_words(&encoded);

    assert_eq!(Ok(decoded), decoded_2);
}

#[test]
fn decopressed_song_new() {
    let src = "Boobies Really do be SŠ M";

    let song = ParsedArr::new(src);

    assert_eq!(
        song,
        Ok(ParsedArr(vec![
            ParsedLetters([
                Letter::B,
                Letter::O,
                Letter::O,
                Letter::B,
                Letter::I,
                Letter::E,
                Letter::S,
                Letter::Space,
            ]),
            ParsedLetters([
                Letter::R,
                Letter::E,
                Letter::A,
                Letter::L,
                Letter::L,
                Letter::Y,
                Letter::Space,
                Letter::D,
            ]),
            ParsedLetters([
                Letter::O,
                Letter::Space,
                Letter::B,
                Letter::E,
                Letter::Space,
                Letter::S,
                Letter::NextIsAccented,
                Letter::S,
            ]),
            ParsedLetters([
                Letter::Space,
                Letter::M,
                Letter::Enter,
                Letter::Space,
                Letter::Space,
                Letter::Space,
                Letter::Space,
                Letter::Space,
            ]),
        ]))
    )
}

#[test]
fn everything() {
    let og = "i am very proud of my country and its citizens";
    let compressed = CompressedArr::new(og).unwrap();

    assert_eq!(og.to_string(), compressed.decode().unwrap().trim_end())
}

#[test]
fn actually_decrases_size() {
    let og = "i am very proud of my country and its citizens";
    let compressed = CompressedArr::new(og).unwrap();

    assert!(og.len() > compressed.to_bytes().len())
}

#[test]
fn sentence_encodes_to_thirty_bytes() {
    let og = "i am very proud of my country and its citizens";
    let compressed = CompressedArr::new(og).unwrap();
    // 46 symbols and the closing Enter fill six groups.
    assert_eq!(compressed.0.len(), 6);
    assert_eq!(compressed.to_bytes().len(), 30);
}

#[test]
fn eight_letters_do_not_shrink() {
    let compressed = CompressedArr::new("abcdefgh").unwrap();
    assert_eq!(compressed.to_bytes().len(), 10);
}

#[test]
fn eleven_letters_shrink() {
    let og = "abcdefghijk";
    let compressed = CompressedArr::new(og).unwrap();
    assert_eq!(compressed.to_bytes().len(), 10);
    assert!(compressed.to_bytes().len() < og.len());
}

#[test]
fn period_encodes_as_two_commas() {
    assert_eq!(Letter::new('.'), Ok(vec![Letter::Comma, Letter::Comma]));
    assert_eq!(Letter::new(','), Ok(vec![Letter::Comma]));
}

#[test]
fn two_commas_render_as_period() {
    let parsed = ParsedArr(vec![group(&[Letter::A, Letter::Comma, Letter::Comma, Letter::B])]);
    assert_eq!(parsed.render(), Ok("a.b    ".to_string()));
}

#[test]
fn lone_comma_renders_as_comma() {
    let parsed = ParsedArr(vec![group(&[Letter::A, Letter::Comma, Letter::B])]);
    assert_eq!(parsed.render(), Ok("a,b     ".to_string()));
}

#[test]
fn comma_at_end_of_stream() {
    let mut g = [Letter::Space; 8];
    g[7] = Letter::Comma;
    let parsed = ParsedArr(vec![ParsedLetters(g)]);
    assert_eq!(parsed.render(), Ok("       ,".to_string()));
}

#[test]
fn reserved_ordinal_is_rejected() {
    let block = CompressedLetters([0x1f, 0, 0, 0, 0]);
    assert_eq!(
        ParsedLetters::from_compressed_words(&block),
        Err(CodecError::InvalidSymbolOrdinal(31))
    );
    let artifact = CompressedArr(vec![block]);
    assert_eq!(artifact.decode(), Err(CodecError::InvalidSymbolOrdinal(31)));
}

#[test]
fn ordinal_thirty_is_enter() {
    let block = CompressedLetters([0x1e, 0, 0, 0, 0]);
    let mut expected = [Letter::Space; 8];
    expected[7] = Letter::Enter;
    assert_eq!(ParsedLetters::from_compressed_words(&block), Ok(ParsedLetters(expected)));
}

#[test]
fn field_positions_are_most_significant_first() {
    let mut last = [Letter::Space; 8];
    last[7] = Letter::A;
    let last = ParsedLetters(last);
    assert_eq!(CompressedLetters::from_parsed_words(&last), CompressedLetters([1, 0, 0, 0, 0]));
    let first = group(&[Letter::A]);
    assert_eq!(CompressedLetters::from_parsed_words(&first), CompressedLetters([0, 0, 0, 0, 8]));
    let all_enter = ParsedLetters([Letter::Enter; 8]);
    let packed = CompressedLetters::from_parsed_words(&all_enter);
    assert_eq!(packed, CompressedLetters([0xde, 0x7b, 0xef, 0xbd, 0xf7]));
    assert_eq!(ParsedLetters::from_compressed_words(&packed), Ok(all_enter));
}

#[test]
fn unknown_character_is_reported() {
    assert_eq!(CompressedArr::new("ab$c"), Err(CodecError::UnknownCharacter('$')));
    assert_eq!(ParsedArr::new("x!y?"), Err(CodecError::UnknownCharacter('!')));
    assert_eq!(Letter::new('ť'), Err(CodecError::UnknownCharacter('ť')));
}

#[test]
fn marker_has_no_standalone_text() {
    assert_eq!(Letter::Chord.to_char(), Err(CodecError::NotDirectlyRenderable(Letter::Chord)));
    assert_eq!(
        Letter::NextIsAccented.to_char(),
        Err(CodecError::NotDirectlyRenderable(Letter::NextIsAccented))
    );
    assert_eq!(Letter::Enter.to_char(), Ok('\n'));
    let mut g = [Letter::Space; 8];
    g[7] = Letter::Chord;
    assert_eq!(
        ParsedArr(vec![ParsedLetters(g)]).render(),
        Err(CodecError::NotDirectlyRenderable(Letter::Chord))
    );
}

#[test]
fn unsupported_accent_base() {
    let parsed = ParsedArr(vec![group(&[Letter::NextIsAccented, Letter::B])]);
    assert_eq!(parsed.render(), Err(CodecError::UnsupportedAccentBase(Letter::B)));
    let compressed = CompressedArr::new("á").unwrap();
    assert_eq!(compressed.decode(), Err(CodecError::UnsupportedAccentBase(Letter::A)));
}

#[test]
fn acute_e_is_two_markers() {
    assert_eq!(
        Letter::new('é'),
        Ok(vec![Letter::NextIsAccented, Letter::NextIsAccented, Letter::E])
    );
    let parsed = ParsedArr(vec![group(&[Letter::NextIsAccented, Letter::E, Letter::NextIsAccented])]);
    assert_eq!(parsed.render(), Ok("é     ".to_string()));
    let parsed = ParsedArr(vec![group(&[Letter::NextIsAccented, Letter::E])]);
    assert_eq!(parsed.render(), Ok("ě      ".to_string()));
    let compressed = CompressedArr::new("é").unwrap();
    assert_eq!(
        compressed.decode(),
        Err(CodecError::UnsupportedAccentBase(Letter::NextIsAccented))
    );
}

#[test]
fn chord_renders_next_symbol() {
    let compressed = CompressedArr::new("#a").unwrap();
    assert_eq!(compressed.decode().unwrap().trim_end(), "a");
}

#[test]
fn czech_text_round_trips() {
    let og = "dědeček ví, kdo šel.\nřež ďý ó ú";
    let compressed = CompressedArr::new(og).unwrap();
    assert_eq!(compressed.decode().unwrap().trim_end(), og);
}

#[test]
fn upper_case_decodes_lower_case() {
    let compressed = CompressedArr::new("Boobies Ž").unwrap();
    assert_eq!(compressed.decode().unwrap().trim_end(), "boobies ž");
}

#[test]
fn empty_text_is_one_group() {
    let parsed = ParsedArr::new("").unwrap();
    assert_eq!(parsed, ParsedArr(vec![group(&[Letter::Enter])]));
    let compressed = CompressedArr::new("").unwrap();
    assert_eq!(compressed.decode().unwrap(), "\n       ");
    assert_eq!(compressed.decode().unwrap().trim_end(), "");
}

#[test]
fn exactly_eight_symbols_fill_one_group() {
    let parsed = ParsedArr::new("abcdefg").unwrap();
    assert_eq!(parsed.0.len(), 1);
    assert_eq!(parsed.0[0].0[7], Letter::Enter);
    let parsed = ParsedArr::new("abcdefgh").unwrap();
    assert_eq!(parsed.0.len(), 2);
    assert_eq!(parsed.0[1], group(&[Letter::Enter]));
}

#[test]
fn bytes_round_trip() {
    let compressed = CompressedArr::new("hello, world").unwrap();
    let bytes = compressed.to_bytes();
    assert_eq!(bytes.len(), 5 * compressed.0.len());
    assert_eq!(bytes[0..5], compressed.0[0].0);
    assert_eq!(CompressedArr::from_bytes(&bytes), Some(compressed));
}

#[test]
fn bytes_with_remainder_are_rejected() {
    assert_eq!(CompressedArr::from_bytes(&[0u8; 7]), None);
    assert_eq!(CompressedArr::from_bytes(&[]), Some(CompressedArr(vec![])));
}

#[test]
fn ordinals_match_the_alphabet() {
    assert_eq!(Letter::Space.code(), 0);
    assert_eq!(Letter::Z.code(), 26);
    assert_eq!(Letter::Enter.code(), 30);
    assert_eq!(Letter::from_code(29), Some(Letter::Comma));
    assert_eq!(Letter::from_code(31), None);
    for n in 0u8..31 {
        assert_eq!(Letter::from_code(n).unwrap().code(), n);
    }
}

#[test]
fn parsed_text_packs_to_compressed_text() {
    let parsed = ParsedArr::new("boobies").unwrap();
    let compressed = CompressedArr::from_parsed(&parsed);
    assert_eq!(compressed, CompressedArr::new("boobies").unwrap());
    assert_eq!(ParsedArr::from_compressed(&compressed), Ok(parsed));
}

#[test]
fn accent_error_before_later_reserved_code() {
    let first = CompressedLetters::from_parsed_words(&group(&[
        Letter::NextIsAccented,
        Letter::B,
        Letter::Enter,
    ]));
    let second = CompressedLetters::from_parsed_words(&ParsedLetters([Letter::Space; 8]));
    let third = CompressedLetters([0x1f, 0, 0, 0, 0]);
    let artifact = CompressedArr(vec![first, second, third]);
    assert_eq!(artifact.decode(), Err(CodecError::UnsupportedAccentBase(Letter::B)));
}

#[test]
fn reserved_code_is_met_once_rendering_reaches_it() {
    let first = CompressedLetters::from_parsed_words(&group(&[Letter::A, Letter::B]));
    let second = CompressedLetters([0x1f, 0, 0, 0, 0]);
    let artifact = CompressedArr(vec![first, second]);
    assert_eq!(artifact.decode(), Err(CodecError::InvalidSymbolOrdinal(31)));
}

#[test]
fn comma_pair_across_blocks_is_a_period() {
    let mut g = [Letter::Space; 8];
    g[7] = Letter::Comma;
    let first = CompressedLetters::from_parsed_words(&ParsedLetters(g));
    let second = CompressedLetters::from_parsed_words(&group(&[Letter::Comma, Letter::A]));
    let artifact = CompressedArr(vec![first, second]);
    assert_eq!(artifact.decode(), Ok("       .a      ".to_string()));
}
