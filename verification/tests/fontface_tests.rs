use fontface::fonts::{should_write, split_css_into_fonts, FontError, FontFormat, FontInfo};

const LATIN_BLOCK: &str = "/* latin */\n@font-face {\n  font-family: 'Foo';\n  font-style: normal;\n  font-weight: 400;\n  font-display: swap;\n  src: url(https://x/y.woff2) format('woff2');\n}";

#[test]
fn test_split_css_into_fonts() {
    let css = r"/* latin */
@font-face {
  font-family: 'Creepster';
  font-style: normal;
  font-weight: 400;
  font-display: swap;
  src: url(https://fonts.gstatic.com/s/creepster/v13/AlZy_zVUqJz4yMrniH4Rcn35fh4Dog.woff2) format('woff2');
  unicode-range: U+0000-00FF, U+0131, U+0152-0153, U+02BB-02BC, U+02C6, U+02DA, U+02DC, U+0304, U+0308, U+0329, U+2000-206F, U+20AC, U+2122, U+2191, U+2193, U+2212, U+2215, U+FEFF, U+FFFD;
}
/* latin */
@font-face {
  font-family: 'Gravitas One';
  font-style: normal;
  font-weight: 400;
  font-display: swap;
  src: url(https://fonts.gstatic.com/s/gravitasone/v19/5h1diZ4hJ3cblKy3LWakKQmqCm5MjXPjbA.woff2) format('woff2');
  unicode-range: U+0000-00FF, U+0131, U+0152-0153, U+02BB-02BC, U+02C6, U+02DA, U+02DC, U+0304, U+0308, U+0329, U+2000-206F, U+20AC, U+2122, U+2191, U+2193, U+2212, U+2215, U+FEFF, U+FFFD;
}";

    let result = split_css_into_fonts(css);
    assert_eq!(result.len(), 2);
    assert_eq!(result[0].writing_system_name, "latin");
    assert_eq!(result[0].css, "@font-face {\n  font-family: 'Creepster';\n  font-style: normal;\n  font-weight: 400;\n  font-display: swap;\n  src: url(https://fonts.gstatic.com/s/creepster/v13/AlZy_zVUqJz4yMrniH4Rcn35fh4Dog.woff2) format('woff2');\n  unicode-range: U+0000-00FF, U+0131, U+0152-0153, U+02BB-02BC, U+02C6, U+02DA, U+02DC, U+0304, U+0308, U+0329, U+2000-206F, U+20AC, U+2122, U+2191, U+2193, U+2212, U+2215, U+FEFF, U+FFFD;\n}");
    assert_eq!(result[1].writing_system_name, "latin");
    assert_eq!(result[1].css, "@font-face {\n  font-family: 'Gravitas One';\n  font-style: normal;\n  font-weight: 400;\n  font-display: swap;\n  src: url(https://fonts.gstatic.com/s/gravitasone/v19/5h1diZ4hJ3cblKy3LWakKQmqCm5MjXPjbA.woff2) format('woff2');\n  unicode-range: U+0000-00FF, U+0131, U+0152-0153, U+02BB-02BC, U+02C6, U+02DA, U+02DC, U+0304, U+0308, U+0329, U+2000-206F, U+20AC, U+2122, U+2191, U+2193, U+2212, U+2215, U+FEFF, U+FFFD;\n}");
}

#[test]
fn split_latin_block_decodes_every_attribute() {
    let result = split_css_into_fonts(LATIN_BLOCK);
    assert_eq!(result.len(), 1);
    let font = &result[0];
    assert_eq!(font.writing_system_name, "latin");
    assert_eq!(font.get_font_family().unwrap(), "Foo");
    assert_eq!(font.get_font_style().unwrap(), "normal");
    assert_eq!(font.get_font_weight().unwrap(), "400");
    assert_eq!(font.get_font_stretch(), None);
    assert_eq!(font.get_font_display().unwrap(), "swap");
    assert_eq!(font.get_font_url().unwrap(), "https://x/y.woff2");
    assert_eq!(font.get_font_format().unwrap(), FontFormat::Woff2);
    assert_eq!(font.get_font_filename().unwrap(), "foo-400-normal-latin.woff2");
    assert_eq!(font.get_css_filename().unwrap(), "foo-400-normal-latin.css");
}

#[test]
fn decode_yields_the_whole_record() {
    let result = split_css_into_fonts(LATIN_BLOCK);
    let record = result[0].decode().unwrap();
    assert_eq!(record.family, "Foo");
    assert_eq!(record.style, "normal");
    assert_eq!(record.weight, "400");
    assert_eq!(record.stretch, None);
    assert_eq!(record.display, "swap");
    assert_eq!(record.subset_label, "latin");
    assert_eq!(record.source_url, "https://x/y.woff2");
    assert_eq!(record.format, FontFormat::Woff2);
}

#[test]
fn decode_reports_the_first_missing_attribute() {
    let font = FontInfo {
        css: "@font-face {\n  font-weight: 400;\n}".to_string(),
        writing_system_name: String::new(),
    };
    assert!(matches!(font.decode(), Err(FontError::MissingFamily)));
}

#[test]
fn rewrite_replaces_only_the_url() {
    let result = split_css_into_fonts(LATIN_BLOCK);
    let new_css = result[0].get_new_css("./assets").unwrap();
    assert!(new_css.contains("src: url(./assets/foo-400-normal-latin.woff2) format('woff2');"));
    assert_eq!(
        new_css,
        "@font-face {\n  font-family: 'Foo';\n  font-style: normal;\n  font-weight: 400;\n  font-display: swap;\n  src: url(./assets/foo-400-normal-latin.woff2) format('woff2');\n}"
    );
}

#[test]
fn rewritten_css_reextracts_to_the_new_url() {
    let result = split_css_into_fonts(LATIN_BLOCK);
    let new_css = result[0].get_new_css("./assets").unwrap();
    let reparsed = FontInfo {
        css: new_css,
        writing_system_name: result[0].writing_system_name.clone(),
    };
    assert_eq!(
        reparsed.get_font_url().unwrap(),
        "./assets/foo-400-normal-latin.woff2"
    );
}

#[test]
fn no_comments_yields_one_unlabeled_record() {
    let css = "@font-face {\n  font-family: 'Bar';\n  font-weight: 700;\n}";
    let result = split_css_into_fonts(css);
    assert_eq!(result.len(), 1);
    assert_eq!(result[0].writing_system_name, "");
    assert_eq!(result[0].css, css);
}

#[test]
fn empty_stylesheet_yields_no_records() {
    assert_eq!(split_css_into_fonts("").len(), 0);
    assert_eq!(split_css_into_fonts("  \n\t ").len(), 0);
}

#[test]
fn text_before_first_comment_is_an_unlabeled_record() {
    let css = "@font-face { x }\n/* cyrillic */\n@font-face { y }";
    let result = split_css_into_fonts(css);
    assert_eq!(result.len(), 2);
    assert_eq!(result[0].writing_system_name, "");
    assert_eq!(result[0].css, "@font-face { x }");
    assert_eq!(result[1].writing_system_name, "cyrillic");
    assert_eq!(result[1].css, "@font-face { y }");
}

#[test]
fn trailing_text_inherits_the_last_label() {
    let css = "/* greek */\n@font-face { a }\n@font-face { b }";
    let result = split_css_into_fonts(css);
    assert_eq!(result.len(), 2);
    assert_eq!(result[0].writing_system_name, "greek");
    assert_eq!(result[0].css, "@font-face { a }");
    assert_eq!(result[1].writing_system_name, "greek");
    assert_eq!(result[1].css, "@font-face { b }");
}

#[test]
fn comment_free_sheet_yields_one_record_per_block() {
    let css = "@font-face {\n  font-family: 'A';\n}\n@font-face {\n  font-family: 'B';\n}";
    let result = split_css_into_fonts(css);
    assert_eq!(result.len(), 2);
    assert_eq!(result[0].writing_system_name, "");
    assert_eq!(result[0].css, "@font-face {\n  font-family: 'A';\n}");
    assert_eq!(result[1].writing_system_name, "");
    assert_eq!(result[1].css, "@font-face {\n  font-family: 'B';\n}");
}

#[test]
fn text_after_an_unterminated_comment_surfaces() {
    let css = "@font-face { a }\n/* latin";
    let result = split_css_into_fonts(css);
    assert_eq!(result.len(), 2);
    assert_eq!(result[0].css, "@font-face { a }");
    assert_eq!(result[1].css, "/* latin");
    assert!(result[1].decode().is_err());
}

#[test]
fn comment_labels_are_trimmed() {
    let css = "/*   latin-ext\t*/\n@font-face { a }";
    let result = split_css_into_fonts(css);
    assert_eq!(result.len(), 1);
    assert_eq!(result[0].writing_system_name, "latin-ext");
}

#[test]
fn format_tokens_decode_case_insensitively() {
    assert_eq!(FontFormat::from_str("truetype"), FontFormat::TrueType);
    assert_eq!(FontFormat::from_str("TrueType"), FontFormat::TrueType);
    assert_eq!(FontFormat::from_str("woff"), FontFormat::Woff);
    assert_eq!(FontFormat::from_str("WOFF2"), FontFormat::Woff2);
    assert_eq!(FontFormat::from_str("opentype"), FontFormat::Unknown);
    assert_eq!(FontFormat::from_str(""), FontFormat::Unknown);
}

#[test]
fn extensions_follow_the_format() {
    assert_eq!(FontFormat::TrueType.to_extension(), "ttf");
    assert_eq!(FontFormat::Woff.to_extension(), "woff");
    assert_eq!(FontFormat::Woff2.to_extension(), "woff2");
    assert_eq!(FontFormat::Unknown.to_extension(), "");
}

fn block(css: &str, label: &str) -> FontInfo {
    FontInfo { css: css.to_string(), writing_system_name: label.to_string() }
}

#[test]
fn missing_weight_is_a_typed_error() {
    let font = block(
        "@font-face {\n  font-family: 'Foo';\n  font-style: normal;\n  font-display: swap;\n  src: url(https://x/y.woff2) format('woff2');\n}",
        "latin",
    );
    assert_eq!(font.get_font_weight(), Err(FontError::MissingWeight));
    assert_eq!(font.get_font_filename(), Err(FontError::MissingWeight));
    assert_eq!(font.get_css_filename(), Err(FontError::MissingWeight));
    assert_eq!(font.get_new_css("./x"), Err(FontError::MissingWeight));
}

#[test]
fn unknown_format_fails_filename_derivation() {
    let font = block(
        "@font-face {\n  font-family: 'Foo';\n  font-style: normal;\n  font-weight: 400;\n  font-display: swap;\n  src: url(https://x/y.eot) format('embedded-opentype');\n}",
        "latin",
    );
    assert_eq!(font.get_font_format().unwrap(), FontFormat::Unknown);
    assert_eq!(font.get_font_filename(), Err(FontError::UnsupportedFormat));
    assert_eq!(font.get_css_filename(), Err(FontError::UnsupportedFormat));
}

#[test]
fn each_missing_attribute_reports_its_own_error() {
    let full = "@font-face {\n  font-family: 'Foo';\n  font-style: normal;\n  font-weight: 400;\n  font-display: swap;\n  src: url(https://x/y.woff2) format('woff2');\n}";
    assert_eq!(
        block(&full.replace("font-family: 'Foo';\n  ", ""), "").get_font_family(),
        Err(FontError::MissingFamily)
    );
    assert_eq!(
        block(&full.replace("font-style: normal;\n  ", ""), "").get_font_style(),
        Err(FontError::MissingStyle)
    );
    assert_eq!(
        block(&full.replace("font-display: swap;\n  ", ""), "").get_font_display(),
        Err(FontError::MissingDisplay)
    );
    let no_src = block("@font-face {\n  font-family: 'Foo';\n}", "");
    assert_eq!(no_src.get_font_url_and_format(), Err(FontError::MissingSrc));
    let no_url = block("@font-face {\n  src: local('Foo') format('woff2');\n}", "");
    assert_eq!(no_url.get_font_url_and_format(), Err(FontError::MissingUrl));
    let no_format = block("@font-face {\n  src: url(https://x/y.woff2);\n}", "");
    assert_eq!(no_format.get_font_url_and_format(), Err(FontError::MissingFormat));
}

#[test]
fn error_messages_name_the_failure() {
    assert_eq!(FontError::MissingWeight.message(), "missing font-weight property");
    assert_eq!(FontError::UnsupportedFormat.message(), "unsupported font format");
}

#[test]
fn stretch_is_optional_but_decoded_when_present() {
    let font = block(
        "@font-face {\n  font-family: 'Foo';\n  font-style: normal;\n  font-weight: 400;\n  font-stretch: condensed;\n  font-display: swap;\n  src: url(https://x/y.woff) format('woff');\n}",
        "",
    );
    assert_eq!(font.get_font_stretch(), Some("condensed".to_string()));
}

#[test]
fn filename_derivation_is_deterministic() {
    let result = split_css_into_fonts(LATIN_BLOCK);
    let first = result[0].get_font_filename().unwrap();
    let second = result[0].get_font_filename().unwrap();
    assert_eq!(first, second);
    assert_eq!(
        result[0].get_css_filename().unwrap(),
        result[0].get_css_filename().unwrap()
    );
}

#[test]
fn family_names_are_lowercased_and_hyphenated() {
    let font = block(
        "@font-face {\n  font-family: 'Gravitas One';\n  font-style: italic;\n  font-weight: 700;\n  font-display: swap;\n  src: url(https://x/g.ttf) format('truetype');\n}",
        "vietnamese",
    );
    assert_eq!(
        font.get_font_filename().unwrap(),
        "gravitas-one-700-italic-vietnamese.ttf"
    );
}

#[test]
fn empty_subset_label_is_omitted_from_filenames() {
    let font = block(
        "@font-face {\n  font-family: 'Foo';\n  font-style: normal;\n  font-weight: 400;\n  font-display: swap;\n  src: url(https://x/y.woff2) format('woff2');\n}",
        "",
    );
    assert_eq!(font.get_font_filename().unwrap(), "foo-400-normal.woff2");
    assert_eq!(font.get_css_filename().unwrap(), "foo-400-normal.css");
}

#[test]
fn existing_files_are_skipped_unless_overwriting() {
    assert!(should_write(false, false));
    assert!(should_write(false, true));
    assert!(!should_write(true, false));
    assert!(should_write(true, true));
}

#[test]
fn quoted_urls_lose_their_quotes() {
    let font = block(
        "@font-face {\n  src: url(\"https://x/y.woff2\") format('woff2');\n}",
        "",
    );
    assert_eq!(font.get_font_url().unwrap(), "https://x/y.woff2");
}
