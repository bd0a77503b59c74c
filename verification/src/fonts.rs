//! The `@font-face` dialect: splitting a stylesheet into per-subset records,
//! decoding record attributes, deriving local filenames, and rewriting the
//! CSS to point at local copies.

use vstd::prelude::*;

verus! {

use crate::text::{
    spec_find, spec_trim, spec_trim_quotes, spec_extract, spec_lower, spec_slug, spec_replace,
    lemma_find_props, find_from, trim, trim_quotes, extract, lower, slug, str_eq, replace_all,
};

/// Declared container format of a font binary. Any format token outside the
/// known set decodes to `Unknown`, which filename derivation treats as a
/// hard error.
#[derive(Clone, Copy, Debug, PartialEq, Eq, Structural)]
pub enum FontFormat {
    TrueType,
    Woff,
    Woff2,
    Unknown,
}

/// The format a token decodes to: matched case-insensitively (ASCII case
/// folding; the known tokens are ASCII) against the known set, anything
/// else is `Unknown`.
pub open spec fn spec_format_from(s: Seq<char>) -> FontFormat {
    let l = spec_lower(s);
    if l == "truetype"@ {
        FontFormat::TrueType
    } else if l == "woff"@ {
        FontFormat::Woff
    } else if l == "woff2"@ {
        FontFormat::Woff2
    } else {
        FontFormat::Unknown
    }
}

/// The filename extension of a format; empty for `Unknown`.
pub open spec fn spec_extension(f: FontFormat) -> Seq<char> {
    match f {
        FontFormat::TrueType => "ttf"@,
        FontFormat::Woff => "woff"@,
        FontFormat::Woff2 => "woff2"@,
        FontFormat::Unknown => Seq::empty(),
    }
}

impl FontFormat {
    /// Decode a declared format token, case-insensitively.
    pub fn from_str(s: &str) -> (f: FontFormat)
        ensures
            f == spec_format_from(s@),
    {
        let l = lower(s);
        if str_eq(l.as_str(), "truetype") {
            FontFormat::TrueType
        } else if str_eq(l.as_str(), "woff") {
            FontFormat::Woff
        } else if str_eq(l.as_str(), "woff2") {
            FontFormat::Woff2
        } else {
            FontFormat::Unknown
        }
    }

    /// The filename extension for this format; empty for `Unknown`.
    pub fn to_extension(&self) -> (r: String)
        ensures
            r@ == spec_extension(*self),
    {
        match self {
            FontFormat::TrueType => String::from_str("ttf"),
            FontFormat::Woff => String::from_str("woff"),
            FontFormat::Woff2 => String::from_str("woff2"),
            FontFormat::Unknown => String::new(),
        }
    }
}

/// Why decoding a record, or deriving its filenames, failed.
#[derive(Clone, Copy, Debug, PartialEq, Eq, Structural)]
pub enum FontError {
    /// The `font-family` property is absent.
    MissingFamily,
    /// The `font-style` property is absent.
    MissingStyle,
    /// The `font-weight` property is absent.
    MissingWeight,
    /// The `font-display` property is absent.
    MissingDisplay,
    /// The `src` property is absent.
    MissingSrc,
    /// The `src` property carries no `url(...)`.
    MissingUrl,
    /// The `src` property carries no `format('...')`.
    MissingFormat,
    /// The declared format is outside the known set.
    UnsupportedFormat,
}

/// The text that `FontError::message` returns for each failure.
pub open spec fn spec_error_message(e: FontError) -> Seq<char> {
    match e {
        FontError::MissingFamily => "missing font-family property"@,
        FontError::MissingStyle => "missing font-style property"@,
        FontError::MissingWeight => "missing font-weight property"@,
        FontError::MissingDisplay => "missing font-display property"@,
        FontError::MissingSrc => "missing src property"@,
        FontError::MissingUrl => "missing url() in src property"@,
        FontError::MissingFormat => "missing format() in src property"@,
        FontError::UnsupportedFormat => "unsupported font format"@,
    }
}

impl FontError {
    /// A human-readable description of the failure.
    pub fn message(&self) -> (r: String)
        ensures
            r@ == spec_error_message(*self),
    {
        match self {
            FontError::MissingFamily => String::from_str("missing font-family property"),
            FontError::MissingStyle => String::from_str("missing font-style property"),
            FontError::MissingWeight => String::from_str("missing font-weight property"),
            FontError::MissingDisplay => String::from_str("missing font-display property"),
            FontError::MissingSrc => String::from_str("missing src property"),
            FontError::MissingUrl => String::from_str("missing url() in src property"),
            FontError::MissingFormat => String::from_str("missing format() in src property"),
            FontError::UnsupportedFormat => String::from_str("unsupported font format"),
        }
    }
}

/// One segment of the stylesheet: the CSS text of a rule block together
/// with the writing-system label of the nearest preceding comment.
pub struct FontInfo {
    pub css: String,
    pub writing_system_name: String,
}

/// Mathematical value of a `FontInfo`.
pub ghost struct FontInfoV {
    pub css: Seq<char>,
    pub label: Seq<char>,
}

impl View for FontInfo {
    type V = FontInfoV;

    open spec fn view(&self) -> FontInfoV {
        FontInfoV { css: self.css@, label: self.writing_system_name@ }
    }
}

/// Zero or one record out of a trimmed segment: empty segments are dropped.
pub open spec fn segment_of(content: Seq<char>, label: Seq<char>) -> Seq<FontInfoV> {
    if content.len() == 0 {
        Seq::empty()
    } else {
        seq![FontInfoV { css: content, label }]
    }
}

/// The records of one comment-free segment: one per `@font-face` rule.
/// Each rule runs from its `@font-face` marker up to the next marker or
/// the segment's end, trimmed; residual text before the first marker — or
/// a whole segment without one — forms a record of its own (trimmed,
/// dropped when empty), so that malformed text surfaces as a decoding
/// error instead of vanishing.
pub open spec fn spec_rules(content: Seq<char>, label: Seq<char>) -> Seq<FontInfoV>
    decreases content.len(),
{
    match spec_find(content, "@font-face"@, 0) {
        None => segment_of(spec_trim(content), label),
        Some(i) => {
            let head = segment_of(spec_trim(content.subrange(0, i)), label);
            match spec_find(content, "@font-face"@, i + 1) {
                None => head + segment_of(
                    spec_trim(content.subrange(i, content.len() as int)),
                    label,
                ),
                Some(j) => if 0 <= i && i < j && j <= content.len() {
                    head + segment_of(spec_trim(content.subrange(i, j)), label) + spec_rules(
                        content.subrange(j, content.len() as int),
                        label,
                    )
                } else {
                    head + segment_of(spec_trim(content.subrange(i, content.len() as int)), label)
                },
            }
        },
    }
}

/// The ordered records of a stylesheet. Text before the first
/// `/* ... */` comment, between consecutive comments, and after the last
/// one forms one segment each; a segment carries the label of the comment
/// before it (`label` before the first). Each segment yields one record
/// per `@font-face` rule, as `spec_rules` describes. Text after an
/// unterminated `/*` forms a final segment of its own, so that it
/// surfaces rather than vanishes.
pub open spec fn spec_segments(css: Seq<char>, label: Seq<char>) -> Seq<FontInfoV>
    decreases css.len(),
{
    match spec_find(css, "/*"@, 0) {
        None => spec_rules(css, label),
        Some(i) => {
            let head = spec_rules(css.subrange(0, i), label);
            match spec_find(css, "*/"@, i + 2) {
                None => if 0 <= i <= css.len() {
                    head + spec_rules(css.subrange(i, css.len() as int), label)
                } else {
                    head
                },
                Some(j) => if 0 <= i && i + 2 <= j && j + 2 <= css.len() {
                    head + spec_segments(
                        css.subrange(j + 2, css.len() as int),
                        spec_trim(css.subrange(i + 2, j)),
                    )
                } else {
                    head
                },
            }
        },
    }
}

fn rules_rec(content: &str, label: &str) -> (r: Vec<FontInfo>)
    ensures
        r@.map_values(|fi: FontInfo| fi@) == spec_rules(content@, label@),
    decreases content@.len(),
{
    let n = content.unicode_len();
    let ghost gmap = |fi: FontInfo| fi@;
    match find_from(content, "@font-face", 0) {
        None => {
            let t = trim(content);
            let mut v: Vec<FontInfo> = Vec::new();
            if !t.as_str().is_empty() {
                let fi = FontInfo { css: t, writing_system_name: String::from_str(label) };
                v.push(fi);
            }
            proof {
                assert(v@.map_values(gmap) =~= spec_rules(content@, label@));
            }
            v
        },
        Some(i) => {
            proof {
                lemma_find_props(content@, "@font-face"@, 0);
                reveal_strlit("@font-face");
            }
            let head = trim(content.substring_char(0, i));
            let mut v: Vec<FontInfo> = Vec::new();
            if !head.as_str().is_empty() {
                let fi = FontInfo { css: head, writing_system_name: String::from_str(label) };
                v.push(fi);
            }
            match find_from(content, "@font-face", i + 1) {
                None => {
                    let t = trim(content.substring_char(i, n));
                    if !t.as_str().is_empty() {
                        let fi = FontInfo { css: t, writing_system_name: String::from_str(label) };
                        v.push(fi);
                    }
                    proof {
                        assert(v@.map_values(gmap) =~= spec_rules(content@, label@));
                    }
                    v
                },
                Some(j) => {
                    proof {
                        lemma_find_props(content@, "@font-face"@, i + 1);
                    }
                    let t = trim(content.substring_char(i, j));
                    if !t.as_str().is_empty() {
                        let fi = FontInfo { css: t, writing_system_name: String::from_str(label) };
                        v.push(fi);
                    }
                    let mut tail = rules_rec(content.substring_char(j, n), label);
                    v.append(&mut tail);
                    proof {
                        assert(v@.map_values(gmap) =~= spec_rules(content@, label@));
                    }
                    v
                },
            }
        },
    }
}

fn split_rec(css: &str, label: &str) -> (r: Vec<FontInfo>)
    ensures
        r@.map_values(|fi: FontInfo| fi@) == spec_segments(css@, label@),
    decreases css@.len(),
{
    let n = css.unicode_len();
    let ghost gmap = |fi: FontInfo| fi@;
    match find_from(css, "/*", 0) {
        None => {
            let v = rules_rec(css, label);
            proof {
                assert(v@.map_values(gmap) =~= spec_segments(css@, label@));
            }
            v
        },
        Some(i) => {
            proof {
                lemma_find_props(css@, "/*"@, 0);
                reveal_strlit("/*");
            }
            let mut v = rules_rec(css.substring_char(0, i), label);
            match find_from(css, "*/", i + 2) {
                None => {
                    let mut tail = rules_rec(css.substring_char(i, n), label);
                    v.append(&mut tail);
                    proof {
                        assert(v@.map_values(gmap) =~= spec_segments(css@, label@));
                    }
                    v
                },
                Some(j) => {
                    proof {
                        lemma_find_props(css@, "*/"@, i + 2);
                        reveal_strlit("*/");
                    }
                    let new_label = trim(css.substring_char(i + 2, j));
                    let rest = css.substring_char(j + 2, n);
                    let mut tail = split_rec(rest, new_label.as_str());
                    v.append(&mut tail);
                    proof {
                        assert(v@.map_values(gmap) =~= spec_segments(css@, label@));
                    }
                    v
                },
            }
        },
    }
}

/// Split a raw stylesheet into its ordered sequence of labelled records,
/// one per `@font-face` rule, as `spec_segments` describes, starting with
/// an empty label.
pub fn split_css_into_fonts(css: &str) -> (r: Vec<FontInfo>)
    ensures
        r@.map_values(|fi: FontInfo| fi@) == spec_segments(css@, Seq::empty()),
{
    proof {
        reveal_strlit("");
        assert(""@ =~= Seq::<char>::empty());
    }
    split_rec(css, "")
}

/// The overwrite policy for output files: an existing file is left
/// untouched unless overwriting was asked for; a missing file is always
/// written. With deterministic filenames this makes re-runs idempotent.
pub fn should_write(file_present: bool, overwrite: bool) -> (r: bool)
    ensures
        r == (!file_present || overwrite),
{
    !file_present || overwrite
}

/// The declared family name: text between `font-family: '` and the next
/// `';`.
pub open spec fn spec_family(css: Seq<char>) -> Option<Seq<char>> {
    spec_extract(css, "font-family: '"@, "';"@)
}

/// The declared style: text between `font-style: ` and the next `;`.
pub open spec fn spec_style(css: Seq<char>) -> Option<Seq<char>> {
    spec_extract(css, "font-style: "@, ";"@)
}

/// The declared weight: text between `font-weight: ` and the next `;`.
pub open spec fn spec_weight(css: Seq<char>) -> Option<Seq<char>> {
    spec_extract(css, "font-weight: "@, ";"@)
}

/// The declared stretch, when present: text between `font-stretch: ` and
/// the next `;`.
pub open spec fn spec_stretch(css: Seq<char>) -> Option<Seq<char>> {
    spec_extract(css, "font-stretch: "@, ";"@)
}

/// The declared display policy: text between `font-display: ` and the next
/// `;`.
pub open spec fn spec_display(css: Seq<char>) -> Option<Seq<char>> {
    spec_extract(css, "font-display: "@, ";"@)
}

/// The whole `src` property: text between `src: ` and the next `;`.
pub open spec fn spec_src(css: Seq<char>) -> Option<Seq<char>> {
    spec_extract(css, "src: "@, ";"@)
}

/// The asset URL inside the `src` property: text between `url(` and the
/// next `)`, with surrounding double quotes removed.
pub open spec fn spec_url(css: Seq<char>) -> Option<Seq<char>> {
    match spec_src(css) {
        None => None,
        Some(sp) => match spec_find(sp, "url("@, 0) {
            None => None,
            Some(i) => match spec_find(sp, ")"@, i + 4) {
                None => None,
                Some(j) => Some(spec_trim_quotes(sp.subrange(i + 4, j))),
            },
        },
    }
}

/// The declared format token inside the `src` property: text between
/// `format('` and the next `')`.
pub open spec fn spec_format_token(css: Seq<char>) -> Option<Seq<char>> {
    match spec_src(css) {
        None => None,
        Some(sp) => match spec_find(sp, "format('"@, 0) {
            None => None,
            Some(i) => match spec_find(sp, "')"@, i + 8) {
                None => None,
                Some(j) => Some(sp.subrange(i + 8, j)),
            },
        },
    }
}

/// The decoded format of the record, when a format token is declared.
pub open spec fn spec_format_of(css: Seq<char>) -> Option<FontFormat> {
    match spec_format_token(css) {
        None => None,
        Some(t) => Some(spec_format_from(t)),
    }
}

/// The error that decoding the `src` property reports, or `None` when URL
/// and format token are both present.
pub open spec fn spec_src_error(css: Seq<char>) -> Option<FontError> {
    if spec_src(css) is None {
        Some(FontError::MissingSrc)
    } else if spec_url(css) is None {
        Some(FontError::MissingUrl)
    } else if spec_format_token(css) is None {
        Some(FontError::MissingFormat)
    } else {
        None
    }
}

/// The decoded attributes of one `@font-face` rule together with its
/// writing-system label. Constructed only by `FontInfo::decode`: every
/// required attribute is present once decoding succeeds, and `stretch` is
/// `None` exactly when the rule omits it.
pub struct FontFaceRecord {
    pub family: String,
    pub style: String,
    pub weight: String,
    pub stretch: Option<String>,
    pub display: String,
    pub subset_label: String,
    pub source_url: String,
    pub format: FontFormat,
}

/// The error that decoding a whole record reports, or `None` when every
/// required attribute is present.
pub open spec fn spec_decode_error(fi: FontInfoV) -> Option<FontError> {
    if spec_family(fi.css) is None {
        Some(FontError::MissingFamily)
    } else if spec_style(fi.css) is None {
        Some(FontError::MissingStyle)
    } else if spec_weight(fi.css) is None {
        Some(FontError::MissingWeight)
    } else if spec_display(fi.css) is None {
        Some(FontError::MissingDisplay)
    } else {
        spec_src_error(fi.css)
    }
}

/// The error that filename derivation reports, or `None` when every
/// required attribute is present and the format is in the known set.
pub open spec fn spec_name_error(fi: FontInfoV) -> Option<FontError> {
    if spec_family(fi.css) is None {
        Some(FontError::MissingFamily)
    } else if spec_weight(fi.css) is None {
        Some(FontError::MissingWeight)
    } else if spec_style(fi.css) is None {
        Some(FontError::MissingStyle)
    } else if spec_src_error(fi.css) is Some {
        spec_src_error(fi.css)
    } else if spec_format_of(fi.css) == Some(FontFormat::Unknown) {
        Some(FontError::UnsupportedFormat)
    } else {
        None
    }
}

/// The filename stem shared by the binary and the CSS filename:
/// `{slug(family)}-{weight}-{style}` with `-{subset}` appended when the
/// subset label is not empty. Meaningful only when `spec_name_error` is
/// `None`.
pub open spec fn spec_stem(fi: FontInfoV) -> Seq<char> {
    let base = spec_slug(spec_family(fi.css)->0) + "-"@ + spec_weight(fi.css)->0 + "-"@
        + spec_style(fi.css)->0;
    if fi.label.len() == 0 {
        base
    } else {
        base + "-"@ + fi.label
    }
}

/// The derived filename of the binary font asset.
pub open spec fn spec_font_filename(fi: FontInfoV) -> Seq<char> {
    spec_stem(fi) + "."@ + spec_extension(spec_format_of(fi.css)->0)
}

/// The derived filename of the companion CSS snippet.
pub open spec fn spec_css_filename(fi: FontInfoV) -> Seq<char> {
    spec_stem(fi) + ".css"@
}

/// The record's CSS with every occurrence of its asset URL replaced by
/// `{prefix}/{binary filename}`. Meaningful only when `spec_name_error` is
/// `None`.
pub open spec fn spec_new_css(fi: FontInfoV, prefix: Seq<char>) -> Seq<char> {
    spec_replace(fi.css, spec_url(fi.css)->0, prefix + "/"@ + spec_font_filename(fi))
}

impl FontInfo {
    /// The declared family name, or `MissingFamily` when the property is
    /// absent.
    pub fn get_font_family(&self) -> (r: Result<String, FontError>)
        ensures
            match r {
                Ok(t) => spec_family(self@.css) == Some(t@),
                Err(e) => spec_family(self@.css) is None && e == FontError::MissingFamily,
            },
    {
        match extract(self.css.as_str(), "font-family: '", "';") {
            Some(t) => Ok(t),
            None => Err(FontError::MissingFamily),
        }
    }

    /// The declared style, or `MissingStyle` when the property is absent.
    pub fn get_font_style(&self) -> (r: Result<String, FontError>)
        ensures
            match r {
                Ok(t) => spec_style(self@.css) == Some(t@),
                Err(e) => spec_style(self@.css) is None && e == FontError::MissingStyle,
            },
    {
        match extract(self.css.as_str(), "font-style: ", ";") {
            Some(t) => Ok(t),
            None => Err(FontError::MissingStyle),
        }
    }

    /// The declared weight, or `MissingWeight` when the property is absent.
    pub fn get_font_weight(&self) -> (r: Result<String, FontError>)
        ensures
            match r {
                Ok(t) => spec_weight(self@.css) == Some(t@),
                Err(e) => spec_weight(self@.css) is None && e == FontError::MissingWeight,
            },
    {
        match extract(self.css.as_str(), "font-weight: ", ";") {
            Some(t) => Ok(t),
            None => Err(FontError::MissingWeight),
        }
    }

    /// The declared stretch, or `None` when the optional property is
    /// absent.
    pub fn get_font_stretch(&self) -> (r: Option<String>)
        ensures
            match r {
                Some(t) => spec_stretch(self@.css) == Some(t@),
                None => spec_stretch(self@.css) is None,
            },
    {
        extract(self.css.as_str(), "font-stretch: ", ";")
    }

    /// The declared display policy, or `MissingDisplay` when the property
    /// is absent.
    pub fn get_font_display(&self) -> (r: Result<String, FontError>)
        ensures
            match r {
                Ok(t) => spec_display(self@.css) == Some(t@),
                Err(e) => spec_display(self@.css) is None && e == FontError::MissingDisplay,
            },
    {
        match extract(self.css.as_str(), "font-display: ", ";") {
            Some(t) => Ok(t),
            None => Err(FontError::MissingDisplay),
        }
    }

    /// The asset URL and the decoded format out of the `src` property, or
    /// the first error that `spec_src_error` reports.
    pub fn get_font_url_and_format(&self) -> (r: Result<(String, FontFormat), FontError>)
        ensures
            match r {
                Ok(p) => spec_src_error(self@.css) is None && spec_url(self@.css) == Some(p.0@)
                    && spec_format_of(self@.css) == Some(p.1),
                Err(e) => spec_src_error(self@.css) == Some(e),
            },
    {
        let sp = match extract(self.css.as_str(), "src: ", ";") {
            Some(sp) => sp,
            None => {
                return Err(FontError::MissingSrc);
            },
        };
        let sps = sp.as_str();
        // establishes that the length of the src text fits in usize
        let _spn: usize = sps.unicode_len();
        let i = match find_from(sps, "url(", 0) {
            Some(i) => i,
            None => {
                return Err(FontError::MissingUrl);
            },
        };
        proof {
            lemma_find_props(sps@, "url("@, 0);
            reveal_strlit("url(");
        }
        let j = match find_from(sps, ")", i + 4) {
            Some(j) => j,
            None => {
                return Err(FontError::MissingUrl);
            },
        };
        proof {
            lemma_find_props(sps@, ")"@, i + 4);
            reveal_strlit(")");
        }
        let url = trim_quotes(sps.substring_char(i + 4, j));
        let k = match find_from(sps, "format('", 0) {
            Some(k) => k,
            None => {
                return Err(FontError::MissingFormat);
            },
        };
        proof {
            lemma_find_props(sps@, "format('"@, 0);
            reveal_strlit("format('");
        }
        let l = match find_from(sps, "')", k + 8) {
            Some(l) => l,
            None => {
                return Err(FontError::MissingFormat);
            },
        };
        proof {
            lemma_find_props(sps@, "')"@, k + 8);
            reveal_strlit("')");
        }
        let tok = sps.substring_char(k + 8, l);
        let format = FontFormat::from_str(tok);
        Ok((url, format))
    }

    /// The asset URL out of the `src` property; errors as
    /// `get_font_url_and_format` does.
    pub fn get_font_url(&self) -> (r: Result<String, FontError>)
        ensures
            match r {
                Ok(t) => spec_src_error(self@.css) is None && spec_url(self@.css) == Some(t@),
                Err(e) => spec_src_error(self@.css) == Some(e),
            },
    {
        match self.get_font_url_and_format() {
            Ok(p) => Ok(p.0),
            Err(e) => Err(e),
        }
    }

    /// The decoded format out of the `src` property; errors as
    /// `get_font_url_and_format` does.
    pub fn get_font_format(&self) -> (r: Result<FontFormat, FontError>)
        ensures
            match r {
                Ok(f) => spec_src_error(self@.css) is None && spec_format_of(self@.css) == Some(
                    f,
                ),
                Err(e) => spec_src_error(self@.css) == Some(e),
            },
    {
        match self.get_font_url_and_format() {
            Ok(p) => Ok(p.1),
            Err(e) => Err(e),
        }
    }

    /// Decode every attribute of the record at once, in the data model's
    /// order, or report the first missing one. A decoded record always
    /// holds family, style, weight, display and source URL; the optional
    /// stretch is `None` exactly when the rule omits it.
    pub fn decode(&self) -> (r: Result<FontFaceRecord, FontError>)
        ensures
            match r {
                Ok(rec) => spec_decode_error(self@) is None && spec_family(self@.css) == Some(
                    rec.family@,
                ) && spec_style(self@.css) == Some(rec.style@) && spec_weight(self@.css) == Some(
                    rec.weight@,
                ) && (match rec.stretch {
                    Some(t) => spec_stretch(self@.css) == Some(t@),
                    None => spec_stretch(self@.css) is None,
                }) && spec_display(self@.css) == Some(rec.display@) && spec_url(self@.css)
                    == Some(rec.source_url@) && spec_format_of(self@.css) == Some(rec.format)
                    && rec.subset_label@ == self@.label,
                Err(e) => spec_decode_error(self@) == Some(e),
            },
    {
        let family = match self.get_font_family() {
            Ok(t) => t,
            Err(e) => {
                return Err(e);
            },
        };
        let style = match self.get_font_style() {
            Ok(t) => t,
            Err(e) => {
                return Err(e);
            },
        };
        let weight = match self.get_font_weight() {
            Ok(t) => t,
            Err(e) => {
                return Err(e);
            },
        };
        let display = match self.get_font_display() {
            Ok(t) => t,
            Err(e) => {
                return Err(e);
            },
        };
        let stretch = self.get_font_stretch();
        let (source_url, format) = match self.get_font_url_and_format() {
            Ok(p) => p,
            Err(e) => {
                return Err(e);
            },
        };
        Ok(
            FontFaceRecord {
                family,
                style,
                weight,
                stretch,
                display,
                subset_label: self.writing_system_name.clone(),
                source_url,
                format,
            },
        )
    }

    fn stem(&self) -> (r: Result<String, FontError>)
        ensures
            match r {
                Ok(t) => spec_family(self@.css) is Some && spec_weight(self@.css) is Some
                    && spec_style(self@.css) is Some && t@ == spec_stem(self@),
                Err(e) => match e {
                    FontError::MissingFamily => spec_family(self@.css) is None,
                    FontError::MissingWeight => spec_family(self@.css) is Some && spec_weight(
                        self@.css,
                    ) is None,
                    FontError::MissingStyle => spec_family(self@.css) is Some && spec_weight(
                        self@.css,
                    ) is Some && spec_style(self@.css) is None,
                    _ => false,
                },
            },
    {
        let family = match self.get_font_family() {
            Ok(t) => t,
            Err(e) => {
                return Err(e);
            },
        };
        let weight = match self.get_font_weight() {
            Ok(t) => t,
            Err(e) => {
                return Err(e);
            },
        };
        let style = match self.get_font_style() {
            Ok(t) => t,
            Err(e) => {
                return Err(e);
            },
        };
        let mut out = slug(family.as_str());
        out.append("-");
        out.append(weight.as_str());
        out.append("-");
        out.append(style.as_str());
        if !self.writing_system_name.as_str().is_empty() {
            out.append("-");
            out.append(self.writing_system_name.as_str());
        }
        Ok(out)
    }

    /// The derived filename of the binary font asset,
    /// `{slug(family)}-{weight}-{style}[-{subset}].{ext}`, or the first
    /// error that `spec_name_error` reports. An `Unknown` format is a hard
    /// error, never an empty extension. The family is lower-cased with the
    /// ASCII fold that `spec_slug` states: a family name with capitals
    /// outside ASCII keeps them.
    pub fn get_font_filename(&self) -> (r: Result<String, FontError>)
        ensures
            match r {
                Ok(t) => spec_name_error(self@) is None && t@ == spec_font_filename(self@),
                Err(e) => spec_name_error(self@) == Some(e),
            },
    {
        let stem = match self.stem() {
            Ok(t) => t,
            Err(e) => {
                return Err(e);
            },
        };
        let format = match self.get_font_format() {
            Ok(f) => f,
            Err(e) => {
                return Err(e);
            },
        };
        if format == FontFormat::Unknown {
            return Err(FontError::UnsupportedFormat);
        }
        let mut out = stem;
        out.append(".");
        let ext = format.to_extension();
        out.append(ext.as_str());
        Ok(out)
    }

    /// The derived filename of the companion CSS snippet, the same stem
    /// with `.css` appended; it fails exactly as `get_font_filename` does,
    /// so that an unsupported record yields neither of the two names.
    pub fn get_css_filename(&self) -> (r: Result<String, FontError>)
        ensures
            match r {
                Ok(t) => spec_name_error(self@) is None && t@ == spec_css_filename(self@),
                Err(e) => spec_name_error(self@) == Some(e),
            },
    {
        let stem = match self.stem() {
            Ok(t) => t,
            Err(e) => {
                return Err(e);
            },
        };
        let format = match self.get_font_format() {
            Ok(f) => f,
            Err(e) => {
                return Err(e);
            },
        };
        if format == FontFormat::Unknown {
            return Err(FontError::UnsupportedFormat);
        }
        let mut out = stem;
        out.append(".css");
        Ok(out)
    }

    /// The record's CSS with its asset URL textually replaced by
    /// `{prefix}/{binary filename}`; it fails exactly as
    /// `get_font_filename` does.
    pub fn get_new_css(&self, font_prefix: &str) -> (r: Result<String, FontError>)
        ensures
            match r {
                Ok(t) => spec_name_error(self@) is None && t@ == spec_new_css(
                    self@,
                    font_prefix@,
                ),
                Err(e) => spec_name_error(self@) == Some(e),
            },
    {
        let filename = match self.get_font_filename() {
            Ok(t) => t,
            Err(e) => {
                return Err(e);
            },
        };
        let url = match self.get_font_url() {
            Ok(t) => t,
            Err(e) => {
                return Err(e);
            },
        };
        let mut new_url = String::from_str(font_prefix);
        new_url.append("/");
        new_url.append(filename.as_str());
        Ok(replace_all(self.css.as_str(), url.as_str(), new_url.as_str()))
    }
}

} // verus!
