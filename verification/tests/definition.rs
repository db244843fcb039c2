use finch::tree::all_are_renderable;
use finch::{emit_impl, generate_impl, struct_fieldify_impl, Asset, GenerateError};

fn file(name: &str, contents: &[u8]) -> Asset {
    Asset::File { name: name.to_string(), contents: contents.to_vec() }
}

fn directory(name: &str, children: Vec<Asset>) -> Asset {
    Asset::Directory { name: name.to_string(), children }
}

fn values(node: &Asset) -> String {
    assert!(node.is_renderable());
    let mut out = String::new();
    struct_fieldify_impl(node, &mut out);
    out
}

#[test]
fn text_file_is_a_string_literal() {
    assert_eq!(values(&file("a.txt", b"hi")), "\"hi\",\n2,\n");
    assert_eq!(values(&file("empty.txt", b"")), "\"\",\n0,\n");
}

#[test]
fn text_length_is_that_of_the_escaped_literal() {
    // 10 bytes in the file, 13 between the quotes of the literal
    assert_eq!(
        values(&file("q.txt", b"say \"hi\"\n!")),
        "\"say \\\"hi\\\"\\n!\",\n13,\n"
    );
    assert_eq!(values(&file("crlf.md", b"a\r\n\tb")), "\"a\\r\\n\\tb\",\n8,\n");
}

#[test]
fn text_length_counts_bytes_not_characters() {
    // two characters, three bytes; the line feed adds one more
    assert_eq!(values(&file("e.txt", "\u{e9}\n".as_bytes())), "\"\u{e9}\\n\",\n4,\n");
    assert_eq!(values(&file("smile.txt", "\u{1F600}".as_bytes())), "\"\u{1F600}\",\n4,\n");
}

#[test]
fn text_backslash_is_left_alone() {
    assert_eq!(values(&file("b.txt", b"a\\b")), "\"a\\b\",\n3,\n");
}

#[test]
fn bytes_file_is_a_list_of_literals() {
    assert_eq!(values(&file("b.bin", &[0x01, 0x02])), "{\n0x01, 0x02, \n},\n2,\n");
    assert_eq!(values(&file("empty.bin", &[])), "{\n},\n0,\n");
}

#[test]
fn bytes_file_wraps_after_sixteen() {
    let bytes: Vec<u8> = (0xf0..=0xff).chain(0..2).collect();
    assert_eq!(
        values(&file("blob", &bytes)),
        "{\n\
         0xf0, 0xf1, 0xf2, 0xf3, 0xf4, 0xf5, 0xf6, 0xf7, \
         0xf8, 0xf9, 0xfa, 0xfb, 0xfc, 0xfd, 0xfe, 0xff, \n\
         0x00, 0x01, \n\
         },\n\
         18,\n"
    );
}

#[test]
fn bytes_file_of_one_full_row() {
    let bytes = [0xaa; 16];
    assert_eq!(
        values(&file("row.dat", &bytes)),
        "{\n\
         0xaa, 0xaa, 0xaa, 0xaa, 0xaa, 0xaa, 0xaa, 0xaa, \
         0xaa, 0xaa, 0xaa, 0xaa, 0xaa, 0xaa, 0xaa, 0xaa, \n\
         },\n\
         16,\n"
    );
}

#[test]
fn bytes_file_need_not_be_text() {
    assert_eq!(values(&file("raw.bin", &[0xff, 0xfe])), "{\n0xff, 0xfe, \n},\n2,\n");
}

#[test]
fn bytes_length_is_the_file_size() {
    let bytes = vec![b'"'; 40];
    let text = values(&file("quotes.bin", &bytes));
    assert!(text.ends_with("},\n40,\n"));
    assert_eq!(text.matches("0x22").count(), 40);
}

#[test]
fn directory_is_a_nested_list() {
    let sub = directory("sub", vec![file("b.bin", &[1, 2])]);
    assert_eq!(values(&sub), "{\n{\n0x01, 0x02, \n},\n2,\n},\n");
    assert_eq!(values(&directory("empty", vec![])), "{\n},\n");
}

#[test]
fn struct_fieldify_impl_appends() {
    let mut out = String::from("= {\n");
    struct_fieldify_impl(&file("a.txt", b"x"), &mut out);
    assert_eq!(out, "= {\n\"x\",\n1,\n");
}

#[test]
fn invalid_text_is_not_renderable() {
    assert!(!file("bad.txt", &[0xff]).is_renderable());
    assert!(!file("half.json", &[0xc3]).is_renderable());
    assert!(file("bad.bin", &[0xff]).is_renderable());
    assert!(file("good.txt", "\u{e9}".as_bytes()).is_renderable());
    assert!(!directory("d", vec![file("ok.txt", b"ok"), directory("e", vec![file("bad.md", &[0x80])])])
        .is_renderable());
    assert!(directory("d", vec![]).is_renderable());
}

#[test]
fn all_are_renderable_looks_at_every_entry() {
    assert!(all_are_renderable(&[]));
    assert!(all_are_renderable(&[file("a.txt", b"a"), file("b.bin", &[0xff])]));
    assert!(!all_are_renderable(&[file("a.txt", b"a"), file("b.txt", &[0xff])]));
    assert!(!all_are_renderable(&[directory("d", vec![file("b.txt", &[0xff])]), file("a.txt", b"a")]));
}

#[test]
fn invalid_text_gives_invalid_utf8() {
    let entries = vec![file("a.txt", b"fine"), file("b.txt", &[b'a', 0xff, b'b'])];
    let mut out = String::from("kept");
    assert_eq!(generate_impl(&entries, "assets", &mut out, true), Err(GenerateError::InvalidUtf8));
    assert_eq!(out, "kept");
    assert_eq!(generate_impl(&entries, "assets", &mut out, false), Err(GenerateError::InvalidUtf8));
    assert_eq!(out, "kept");
    assert_eq!(
        emit_impl(&entries, "assets", "ASSETS", &mut out, true),
        Err(GenerateError::InvalidUtf8)
    );
    assert_eq!(out, "kept");
}

#[test]
fn invalid_text_deep_in_the_tree_gives_invalid_utf8() {
    let entries = vec![directory("a", vec![directory("b", vec![file("c.html", &[0xc0, 0x80])])])];
    let mut out = String::new();
    assert_eq!(generate_impl(&entries, "x", &mut out, true), Err(GenerateError::InvalidUtf8));
    assert_eq!(out, "");
}

#[test]
fn invalid_bytes_are_fine_in_a_bytes_file() {
    let entries = vec![file("b.bin", &[b'a', 0xff, b'b'])];
    let mut out = String::new();
    assert_eq!(generate_impl(&entries, "assets", &mut out, false), Ok(()));
    assert!(out.contains("0x61, 0xff, 0x62, \n"));
}

#[test]
fn definition_of_an_empty_directory_in_the_header() {
    let mut out = String::new();
    assert_eq!(generate_impl(&[], "assets", &mut out, true), Ok(()));
    assert_eq!(
        out,
        "#ifdef ASSETS_IMPLEMENTATION\n\
         #include <stddef.h>\n\
         #include <stdint.h>\n\
         #ifdef __cplusplus\n\
         extern \"C\" {\n\
         #endif\n\
         const __assets_t assets = {\n\
         };\n\
         #ifdef __cplusplus\n\
         }\n\
         #endif\n\
         #undef ASSETS_IMPLEMENTATION\n\
         #endif\n"
    );
}

#[test]
fn definition_of_an_empty_directory_in_its_own_file() {
    let mut out = String::new();
    assert_eq!(generate_impl(&[], "assets", &mut out, false), Ok(()));
    assert_eq!(
        out,
        "#include \"assets.h\"\n\
         #include <stddef.h>\n\
         #include <stdint.h>\n\
         #ifdef __cplusplus\n\
         extern \"C\" {\n\
         #endif\n\
         const __assets_t assets = {\n\
         };\n\
         #ifdef __cplusplus\n\
         }\n\
         #endif\n"
    );
}

#[test]
fn definition_macro_is_upper_case() {
    let mut out = String::new();
    assert_eq!(generate_impl(&[], "my_assets", &mut out, true), Ok(()));
    assert!(out.starts_with("#ifdef MY_ASSETS_IMPLEMENTATION\n"));
    assert!(out.ends_with("#undef MY_ASSETS_IMPLEMENTATION\n#endif\n"));
    assert!(out.contains("const __my_assets_t my_assets = {\n"));
}

#[test]
fn definition_include_keeps_the_case() {
    let mut out = String::new();
    assert_eq!(generate_impl(&[], "my_assets", &mut out, false), Ok(()));
    assert!(out.starts_with("#include \"my_assets.h\"\n"));
    assert!(!out.contains("MY_ASSETS"));
}

#[test]
fn emit_impl_takes_the_guard_as_given() {
    let mut out = String::new();
    assert_eq!(emit_impl(&[file("a.txt", b"hi")], "assets", "Guard", &mut out, true), Ok(()));
    assert_eq!(
        out,
        "#ifdef Guard_IMPLEMENTATION\n\
         #include <stddef.h>\n\
         #include <stdint.h>\n\
         #ifdef __cplusplus\n\
         extern \"C\" {\n\
         #endif\n\
         const __assets_t assets = {\n\
         \"hi\",\n\
         2,\n\
         };\n\
         #ifdef __cplusplus\n\
         }\n\
         #endif\n\
         #undef Guard_IMPLEMENTATION\n\
         #endif\n"
    );
}

#[test]
fn generate_impl_appends() {
    let mut out = String::from("// header ends\n");
    assert_eq!(generate_impl(&[], "a", &mut out, true), Ok(()));
    assert!(out.starts_with("// header ends\n#ifdef A_IMPLEMENTATION\n"));
}
