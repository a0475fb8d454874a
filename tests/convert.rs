use atsumare::convert::{
    convert_to_xml_dat, parse_catalog, tokenize, write_xml, CatalogDocument, ConvertError, Game,
    Header, Rom, Token,
};

const EXAMPLE: &str = "clrmamepro ( name \"Test\" description \"Test Set\" category \"Games\" version \"1.0\" author \"Tester\" ) game ( name \"Game1\" description \"A Game\" rom ( name \"game1.rom\" size 1024 crc ABCD1234 md5 d41d8cd98f00b204e9800998ecf8427e sha1 da39a3ee5e6b4b0d3255bfef95601890afd80709 ) )";

const PROLOGUE: &str = "<?xml version=\"1.0\"?>\n<!DOCTYPE datafile PUBLIC \"-//Logiqx//DTD ROM Management Datafile//EN\" \"http://www.logiqx.com/Dats/datafile.dtd\">";

fn text(v: &[u8]) -> String {
    String::from_utf8(v.to_vec()).unwrap()
}

#[test]
fn end_to_end_example() {
    let out = convert_to_xml_dat(EXAMPLE, "example.org").unwrap();
    let expected = format!(
        "{}\n<datafile>\n\t<header>\n\t\t<name>Test</name>\n\t\t<description>Test Set</description>\n\t\t<version>1.0</version>\n\t\t<author>Tester</author>\n\t\t<homepage>example.org</homepage>\n\t</header>\n\t<game name=\"Game1\">\n\t\t<category>Games</category>\n\t\t<description>A Game</description>\n\t\t<rom name=\"game1.rom\" size=\"1024\" crc=\"ABCD1234\" md5=\"d41d8cd98f00b204e9800998ecf8427e\" sha1=\"da39a3ee5e6b4b0d3255bfef95601890afd80709\"/>\n\t</game>\n</datafile>",
        PROLOGUE
    );
    assert_eq!(text(&out), expected);
}

#[test]
fn round_trip_of_minimal_catalogue() {
    let doc = parse_catalog(EXAMPLE.as_bytes()).unwrap();
    assert_eq!(doc.header.name, b"Test".to_vec());
    assert_eq!(doc.header.description, b"Test Set".to_vec());
    assert_eq!(doc.header.category, b"Games".to_vec());
    assert_eq!(doc.header.version, b"1.0".to_vec());
    assert_eq!(doc.header.author, b"Tester".to_vec());
    assert_eq!(doc.games.len(), 1);
    assert_eq!(doc.games[0].name, b"Game1".to_vec());
    assert_eq!(doc.games[0].description, b"A Game".to_vec());
    assert_eq!(doc.games[0].roms.len(), 1);
    let rom = &doc.games[0].roms[0];
    assert_eq!(rom.name, b"game1.rom".to_vec());
    assert_eq!(rom.size, b"1024".to_vec());
    assert_eq!(rom.crc, b"ABCD1234".to_vec());
    assert_eq!(rom.md5, b"d41d8cd98f00b204e9800998ecf8427e".to_vec());
    assert_eq!(rom.sha1, b"da39a3ee5e6b4b0d3255bfef95601890afd80709".to_vec());
    let out = text(&convert_to_xml_dat(EXAMPLE, "my.home").unwrap());
    assert!(out.contains("<homepage>my.home</homepage>"));
    assert!(out.contains("<name>Test</name>"));
    assert!(out.contains("<game name=\"Game1\">"));
    assert!(out.contains("<rom name=\"game1.rom\" size=\"1024\" crc=\"ABCD1234\""));
}

#[test]
fn conversion_is_repeatable() {
    let a = convert_to_xml_dat(EXAMPLE, "example.org").unwrap();
    let b = convert_to_xml_dat(EXAMPLE, "example.org").unwrap();
    assert_eq!(a, b);
}

fn rom_text(name: &str) -> String {
    format!("rom ( name {} size 1 crc 00 md5 11 sha1 22 )", name)
}

#[test]
fn games_and_roms_keep_their_order() {
    let doc = format!(
        "clrmamepro ( name N description D category C version V author A )\n game ( name g0 description d0 )\n game ( name g1 description d1 {} )\n game ( name g2 description d2 {} {} )",
        rom_text("r10"),
        rom_text("r20"),
        rom_text("r21")
    );
    let parsed = parse_catalog(doc.as_bytes()).unwrap();
    let names: Vec<Vec<u8>> = parsed.games.iter().map(|g| g.name.clone()).collect();
    assert_eq!(names, vec![b"g0".to_vec(), b"g1".to_vec(), b"g2".to_vec()]);
    let counts: Vec<usize> = parsed.games.iter().map(|g| g.roms.len()).collect();
    assert_eq!(counts, vec![0, 1, 2]);
    assert_eq!(parsed.games[2].roms[0].name, b"r20".to_vec());
    assert_eq!(parsed.games[2].roms[1].name, b"r21".to_vec());
    let out = text(&convert_to_xml_dat(&doc, "h").unwrap());
    let at_g0 = out.find("name=\"g0\"").unwrap();
    let at_g1 = out.find("name=\"g1\"").unwrap();
    let at_r10 = out.find("name=\"r10\"").unwrap();
    let at_g2 = out.find("name=\"g2\"").unwrap();
    let at_r20 = out.find("name=\"r20\"").unwrap();
    let at_r21 = out.find("name=\"r21\"").unwrap();
    assert!(at_g0 < at_g1 && at_g1 < at_r10 && at_r10 < at_g2 && at_g2 < at_r20 && at_r20 < at_r21);
    assert!(out.contains("<game name=\"g0\">\n\t\t<category>C</category>\n\t\t<description>d0</description>\n\t</game>"));
}

#[test]
fn rom_without_sha1_is_rejected() {
    let doc = "clrmamepro ( name N description D category C version V author A ) game ( name g description d rom ( name r size 1 crc 00 md5 11 ) )";
    assert_eq!(convert_to_xml_dat(doc, "h"), Err(ConvertError::Parse));
    assert!(parse_catalog(doc.as_bytes()).is_none());
}

#[test]
fn missing_header_field_is_rejected() {
    let doc = "clrmamepro ( name N description D category C version V ) game ( name g description d )";
    assert_eq!(convert_to_xml_dat(doc, "h"), Err(ConvertError::Parse));
}

#[test]
fn missing_header_is_rejected() {
    assert_eq!(convert_to_xml_dat("game ( name g description d )", "h"), Err(ConvertError::Parse));
    assert_eq!(convert_to_xml_dat("", "h"), Err(ConvertError::Parse));
}

#[test]
fn unbalanced_blocks_are_rejected() {
    let open = "clrmamepro ( name N description D category C version V author A";
    assert_eq!(convert_to_xml_dat(open, "h"), Err(ConvertError::Parse));
    let extra = "clrmamepro ( name N description D category C version V author A ) )";
    assert_eq!(convert_to_xml_dat(extra, "h"), Err(ConvertError::Parse));
    let dangling = "clrmamepro ( name N description D category C version V author )";
    assert_eq!(convert_to_xml_dat(dangling, "h"), Err(ConvertError::Parse));
}

#[test]
fn unterminated_string_is_rejected() {
    let doc = "clrmamepro ( name \"N description D category C version V author A )";
    assert!(tokenize(doc.as_bytes()).is_none());
    assert_eq!(convert_to_xml_dat(doc, "h"), Err(ConvertError::Parse));
}

#[test]
fn tokens_of_a_small_document() {
    let toks = tokenize(b"a ( \"b c\"x)").unwrap();
    assert_eq!(toks.len(), 5);
    assert!(matches!(toks[0], Token::Atom { span } if span.start == 0 && span.end == 1));
    assert!(matches!(toks[1], Token::Open));
    assert!(matches!(toks[2], Token::Atom { span } if span.start == 5 && span.end == 8));
    assert!(matches!(toks[3], Token::Atom { span } if span.start == 9 && span.end == 10));
    assert!(matches!(toks[4], Token::Close));
}

#[test]
fn unknown_blocks_and_keys_are_skipped() {
    let doc = "clrmamepro ( name N description D category C version V author A forcemerging full ) resource ( name x ) game ( name g description d year 1990 disk ( name z sha1 q ) rom ( name r size 1 crc 00 md5 11 sha1 22 flags ( a b ) ) )";
    let parsed = parse_catalog(doc.as_bytes()).unwrap();
    assert_eq!(parsed.games.len(), 1);
    assert_eq!(parsed.games[0].roms.len(), 1);
    assert_eq!(parsed.games[0].roms[0].sha1, b"22".to_vec());
}

#[test]
fn markup_characters_are_escaped() {
    let doc = "clrmamepro ( name \"A & B\" description \"<x>\" category \"it's\" version 1 author \"q\" ) game ( name \"\x27b\x27\" description d )";
    let out = text(&convert_to_xml_dat(doc, "h&").unwrap());
    assert!(out.contains("<name>A &amp; B</name>"));
    assert!(out.contains("<description>&lt;x&gt;</description>"));
    assert!(out.contains("<category>it&apos;s</category>"));
    assert!(out.contains("<homepage>h&amp;</homepage>"));
    assert!(out.contains("<game name=\"&apos;b&apos;\">"));
}

#[test]
fn writer_works_on_a_built_model() {
    let doc = CatalogDocument {
        header: Header {
            name: b"n".to_vec(),
            description: b"d".to_vec(),
            category: b"c".to_vec(),
            version: b"v".to_vec(),
            author: b"a".to_vec(),
        },
        games: vec![Game {
            name: b"\"q\"".to_vec(),
            description: b"e".to_vec(),
            roms: vec![Rom {
                name: b"r".to_vec(),
                size: b"1".to_vec(),
                crc: b"2".to_vec(),
                md5: b"3".to_vec(),
                sha1: b"4".to_vec(),
            }],
        }],
    };
    let out = text(&write_xml(&doc, b"hp"));
    let expected = format!(
        "{}\n<datafile>\n\t<header>\n\t\t<name>n</name>\n\t\t<description>d</description>\n\t\t<version>v</version>\n\t\t<author>a</author>\n\t\t<homepage>hp</homepage>\n\t</header>\n\t<game name=\"&quot;q&quot;\">\n\t\t<category>c</category>\n\t\t<description>e</description>\n\t\t<rom name=\"r\" size=\"1\" crc=\"2\" md5=\"3\" sha1=\"4\"/>\n\t</game>\n</datafile>",
        PROLOGUE
    );
    assert_eq!(out, expected);
}

#[test]
fn later_header_block_wins() {
    let doc = "clrmamepro ( name one description D category C version V author A ) clrmamepro ( name two description D category C version V author A )";
    let parsed = parse_catalog(doc.as_bytes()).unwrap();
    assert_eq!(parsed.header.name, b"two".to_vec());
    assert_eq!(parsed.games.len(), 0);
    let out = text(&convert_to_xml_dat(doc, "h").unwrap());
    assert!(out.ends_with("\t</header>\n</datafile>"));
}

#[test]
fn plainly_written_catalogue_round_trips() {
    let doc = "clrmamepro ( name \"h n\" description \"h d\" category \"h c\" version \"h v\" author \"h a\" ) game ( name \"g n\" description \"g d\" rom ( name \"r n\" size \"1\" crc \"c\" md5 \"m\" sha1 \"s\" ) ) ";
    let parsed = parse_catalog(doc.as_bytes()).unwrap();
    assert_eq!(parsed.header.category, b"h c".to_vec());
    assert_eq!(parsed.games[0].description, b"g d".to_vec());
    assert_eq!(parsed.games[0].roms[0].md5, b"m".to_vec());
    let out = text(&convert_to_xml_dat(doc, "home").unwrap());
    assert!(out.contains("<category>h c</category>"));
    assert!(out.contains("<rom name=\"r n\" size=\"1\" crc=\"c\" md5=\"m\" sha1=\"s\"/>"));
}

#[test]
fn plain_layout_with_several_games_round_trips() {
    let rom = |n: &str| format!("rom ( name \"{}\" size \"2\" crc \"c\" md5 \"m\" sha1 \"s\" ) ", n);
    let doc = format!(
        "clrmamepro ( name \"n\" description \"d\" category \"c\" version \"v\" author \"a\" ) game ( name \"g0\" description \"e0\" ) game ( name \"g1\" description \"e1\" {}) game ( name \"g2\" description \"e2\" {}{}) ",
        rom("x"),
        rom("y"),
        rom("z")
    );
    let parsed = parse_catalog(doc.as_bytes()).unwrap();
    let counts: Vec<usize> = parsed.games.iter().map(|g| g.roms.len()).collect();
    assert_eq!(counts, vec![0, 1, 2]);
    assert_eq!(parsed.games[2].roms[1].name, b"z".to_vec());
    let out = text(&convert_to_xml_dat(&doc, "hp").unwrap());
    assert!(out.contains("\t<game name=\"g2\">\n\t\t<category>c</category>\n\t\t<description>e2</description>\n\t\t<rom name=\"y\" size=\"2\" crc=\"c\" md5=\"m\" sha1=\"s\"/>\n\t\t<rom name=\"z\" size=\"2\" crc=\"c\" md5=\"m\" sha1=\"s\"/>\n\t</game>\n</datafile>"));
}
