use bevy_rhai::paths::{file_stem, has_stem};
use bevy_rhai::text::{check_utf8, decode_text};
use bevy_rhai::{RhaiScript, RhaiScriptLoader, ScriptError};

#[test]
fn load_plain_script() {
    let loader = RhaiScriptLoader;
    let r: Result<RhaiScript, ScriptError> =
        loader.load(b"let x = 1 + 2;", "scripts/hello.rhai");
    let script = r.unwrap();
    assert_eq!(script.content, "let x = 1 + 2;");
    assert_eq!(script.file_name, "hello");
    assert_eq!(script.path_inside_assets_folder, "scripts/hello.rhai");
}

#[test]
fn load_multibyte_content() {
    let loader = RhaiScriptLoader;
    let text = "print(\"héllo – ☃ 🎮\");";
    let r = loader.load(text.as_bytes(), "ai/npc.rhai");
    let script = r.unwrap();
    assert_eq!(script.content, text);
    assert_eq!(script.file_name, "npc");
    assert_eq!(script.path_inside_assets_folder, "ai/npc.rhai");
}

#[test]
fn load_empty_file() {
    let loader = RhaiScriptLoader;
    let script = loader.load(b"", "empty.rhai").unwrap();
    assert_eq!(script.content, "");
    assert_eq!(script.file_name, "empty");
    assert_eq!(script.path_inside_assets_folder, "empty.rhai");
}

#[test]
fn load_rejects_invalid_utf8() {
    let loader = RhaiScriptLoader;
    let r = loader.load(&[0x66, 0x6f, 0xff, 0x6f], "scripts/bad.rhai");
    assert_eq!(r.unwrap_err(), ScriptError::InvalidUtf8);
}

#[test]
fn load_rejects_truncated_sequence() {
    let loader = RhaiScriptLoader;
    let r = loader.load(&[0xe2, 0x82], "scripts/cut.rhai");
    assert_eq!(r.unwrap_err(), ScriptError::InvalidUtf8);
}

#[test]
fn extensions_lists_rhai() {
    let loader = RhaiScriptLoader;
    assert_eq!(loader.extensions(), vec!["rhai"]);
}

#[test]
fn default_loader() {
    let loader: RhaiScriptLoader = Default::default();
    assert_eq!(loader.extensions(), vec!["rhai"]);
}

#[test]
fn stem_of_nested_path() {
    assert_eq!(file_stem("assets/scripts/update.rhai"), "update");
}

#[test]
fn stem_without_directory() {
    assert_eq!(file_stem("startup.rhai"), "startup");
}

#[test]
fn stem_without_extension() {
    assert_eq!(file_stem("scripts/startup"), "startup");
}

#[test]
fn stem_keeps_earlier_dots() {
    assert_eq!(file_stem("a.tar.gz"), "a.tar");
}

#[test]
fn stem_of_hidden_file() {
    assert_eq!(file_stem("dir/.hidden"), ".hidden");
}

#[test]
fn stem_with_trailing_dot() {
    assert_eq!(file_stem("foo."), "foo");
}

#[test]
fn stem_ignores_repeated_separators() {
    assert_eq!(file_stem("dir//name.rhai"), "name");
}

#[test]
fn stem_ignores_trailing_separators() {
    assert_eq!(file_stem("dir/name/"), "name");
}

#[test]
fn stem_of_multibyte_name() {
    assert_eq!(file_stem("scripts/héros.rhai"), "héros");
}

#[test]
fn has_stem_on_ordinary_paths() {
    assert!(has_stem("scripts/hello.rhai"));
    assert!(has_stem("hello"));
    assert!(has_stem(".hidden"));
    assert!(has_stem("dir/name/"));
    assert!(has_stem("dir//"));
    assert!(has_stem("..."));
}

#[test]
fn has_stem_rejects_stemless_paths() {
    assert!(!has_stem(""));
    assert!(!has_stem("/"));
    assert!(!has_stem("//"));
    assert!(!has_stem("."));
    assert!(!has_stem(".."));
    assert!(!has_stem("dir/.."));
    assert!(!has_stem("a/./"));
}

#[test]
fn check_utf8_accepts_well_formed() {
    assert!(check_utf8(b""));
    assert!(check_utf8(b"plain ascii"));
    assert!(check_utf8(&[0xc2, 0x80])); // U+0080, smallest 2-byte scalar
    assert!(check_utf8(&[0xdf, 0xbf])); // U+07FF, largest 2-byte scalar
    assert!(check_utf8(&[0xe0, 0xa0, 0x80])); // U+0800, smallest 3-byte scalar
    assert!(check_utf8(&[0xed, 0x9f, 0xbf])); // U+D7FF, just below surrogates
    assert!(check_utf8(&[0xee, 0x80, 0x80])); // U+E000, just above surrogates
    assert!(check_utf8(&[0xf0, 0x90, 0x80, 0x80])); // U+10000, smallest 4-byte scalar
    assert!(check_utf8(&[0xf4, 0x8f, 0xbf, 0xbf])); // U+10FFFF, largest scalar
    assert!(check_utf8("ναι 🎲".as_bytes()));
}

#[test]
fn check_utf8_rejects_malformed() {
    assert!(!check_utf8(&[0x80])); // lone continuation byte
    assert!(!check_utf8(&[0xff])); // not a leading byte
    assert!(!check_utf8(&[0xc2])); // 2-byte lead without continuation
    assert!(!check_utf8(&[0xc0, 0x80])); // overlong 2-byte encoding of NUL
    assert!(!check_utf8(&[0xc1, 0xbf])); // overlong 2-byte encoding
    assert!(!check_utf8(&[0xe0, 0x9f, 0xbf])); // overlong 3-byte encoding
    assert!(!check_utf8(&[0xed, 0xa0, 0x80])); // U+D800, a surrogate
    assert!(!check_utf8(&[0xed, 0xbf, 0xbf])); // U+DFFF, a surrogate
    assert!(!check_utf8(&[0xe2, 0x82])); // truncated 3-byte sequence
    assert!(!check_utf8(&[0xf0, 0x8f, 0xbf, 0xbf])); // overlong 4-byte encoding
    assert!(!check_utf8(&[0xf4, 0x90, 0x80, 0x80])); // above U+10FFFF
    assert!(!check_utf8(&[0xf5, 0x80, 0x80, 0x80])); // lead byte out of range
    assert!(!check_utf8(&[0x61, 0x80])); // continuation after ascii
}

#[test]
fn decode_text_round_trips() {
    let text = "x += 1; // π ≈ 3.14159";
    assert_eq!(decode_text(text.as_bytes()), Some(text.to_string()));
    assert_eq!(decode_text(&[0xed, 0xa0, 0x80]), None);
}
