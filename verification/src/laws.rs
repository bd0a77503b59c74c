//! The general properties of the library, stated and proved over the same
//! spec functions that the executable functions' contracts use.

use vstd::prelude::*;

verus! {

use crate::text::{occurs_at, spec_find, spec_trim, spec_trim_quotes, spec_replace, ltrim_idx,
    is_space, lemma_find_props, lemma_find_exact, lemma_occurs_subrange, lemma_ltrim_chars,
    lemma_ltrim_exact, lemma_rtrim_bounds, lemma_rtrim_above, lemma_trim_drop_prefix};
use crate::fonts::{FontInfoV, segment_of, spec_rules, spec_segments, spec_font_filename,
    spec_css_filename, spec_url};

/// `pat` occurs nowhere in `s`.
pub open spec fn no_occurrence(s: Seq<char>, pat: Seq<char>) -> bool {
    forall|q: int| !occurs_at(s, pat, q)
}

/// Every record of a segment carries the segment's label.
pub proof fn lemma_rules_labels(content: Seq<char>, label: Seq<char>)
    ensures
        forall|k: int| 0 <= k < spec_rules(content, label).len() ==> spec_rules(
            content,
            label,
        )[k].label == label,
    decreases content.len(),
{
    let pat = "@font-face"@;
    match spec_find(content, pat, 0) {
        None => {
        },
        Some(i) => {
            let head = segment_of(spec_trim(content.subrange(0, i)), label);
            match spec_find(content, pat, i + 1) {
                None => {
                    let chunk = segment_of(
                        spec_trim(content.subrange(i, content.len() as int)),
                        label,
                    );
                    assert forall|k: int| 0 <= k < (head + chunk).len() implies (head
                        + chunk)[k].label == label by {
                        if k < head.len() {
                            assert((head + chunk)[k] == head[k]);
                        } else {
                            assert((head + chunk)[k] == chunk[k - head.len()]);
                        }
                    }
                },
                Some(j) => {
                    if 0 <= i && i < j && j <= content.len() {
                        let chunk = segment_of(spec_trim(content.subrange(i, j)), label);
                        let rest = spec_rules(content.subrange(j, content.len() as int), label);
                        lemma_rules_labels(content.subrange(j, content.len() as int), label);
                        assert forall|k: int| 0 <= k < (head + chunk + rest).len() implies (head
                            + chunk + rest)[k].label == label by {
                            if k < head.len() {
                                assert((head + chunk + rest)[k] == head[k]);
                            } else if k < head.len() + chunk.len() {
                                assert((head + chunk + rest)[k] == chunk[k - head.len()]);
                            } else {
                                assert((head + chunk + rest)[k] == rest[k - head.len()
                                    - chunk.len()]);
                            }
                        }
                    } else {
                        let chunk = segment_of(
                            spec_trim(content.subrange(i, content.len() as int)),
                            label,
                        );
                        assert forall|k: int| 0 <= k < (head + chunk).len() implies (head
                            + chunk)[k].label == label by {
                            if k < head.len() {
                                assert((head + chunk)[k] == head[k]);
                            } else {
                                assert((head + chunk)[k] == chunk[k - head.len()]);
                            }
                        }
                    }
                },
            }
        },
    }
}

/// Splitting a stylesheet that contains no comment at all yields one
/// record per `@font-face` rule of the whole document, every one carrying
/// the starting label — the empty one, for a whole document.
pub proof fn lemma_split_no_comments(css: Seq<char>, label: Seq<char>)
    requires
        no_occurrence(css, "/*"@),
    ensures
        spec_segments(css, label) == spec_rules(css, label),
        forall|k: int| 0 <= k < spec_segments(css, label).len() ==> spec_segments(
            css,
            label,
        )[k].label == label,
{
    reveal_strlit("/*");
    lemma_find_props(css, "/*"@, 0);
    match spec_find(css, "/*"@, 0) {
        Some(i) => {
            assert(occurs_at(css, "/*"@, i));
            assert(false);
        },
        None => {
        },
    }
    lemma_rules_labels(css, label);
}

/// A segment whose first non-whitespace text is its single `@font-face`
/// rule: whitespace, then the marker, and the marker occurs nowhere else.
pub open spec fn wf_content(c: Seq<char>) -> bool {
    let a = ltrim_idx(c, 0);
    &&& a < c.len()
    &&& occurs_at(c, "@font-face"@, a)
    &&& forall|q: int| q != a ==> !occurs_at(c, "@font-face"@, q)
}

/// A well-formed single-rule segment yields exactly one record: the
/// trimmed segment under the segment's label.
pub proof fn lemma_single_rule(c: Seq<char>, label: Seq<char>)
    requires
        wf_content(c),
    ensures
        spec_rules(c, label) == seq![FontInfoV { css: spec_trim(c), label }],
{
    reveal_strlit("@font-face");
    let pat = "@font-face"@;
    let n = c.len() as int;
    let a = ltrim_idx(c, 0);
    lemma_ltrim_chars(c, 0);
    lemma_find_exact(c, pat, 0, a);
    // the text before the marker is all whitespace, so it yields no record
    let p = c.subrange(0, a);
    assert forall|k: int| 0 <= k < p.len() implies is_space(p[k]) by {
        assert(p[k] == c[k]);
    }
    lemma_ltrim_exact(p, 0, a);
    lemma_rtrim_bounds(p, a);
    assert(spec_trim(p).len() == 0);
    // the marker occurs nowhere else
    lemma_find_props(c, pat, a + 1);
    match spec_find(c, pat, a + 1) {
        Some(q) => {
            assert(occurs_at(c, pat, q));
            assert(false);
        },
        None => {
        },
    }
    // the rule chunk is the trimmed segment, and it is not empty: it
    // starts with the marker's first character
    lemma_trim_drop_prefix(c, a);
    assert(c.subrange(a, a + 10)[0] == c[a]);
    assert(c[a] == '@');
    lemma_rtrim_above(c, n, a);
    lemma_rtrim_bounds(c, n);
    assert(spec_trim(c).len() > 0);
    assert(spec_rules(c, label) =~= seq![FontInfoV { css: spec_trim(c), label }]);
}

/// A stylesheet built out of labelled blocks: for each part, a comment
/// holding its label followed by its rule text.
pub open spec fn spec_sheet(parts: Seq<(Seq<char>, Seq<char>)>) -> Seq<char>
    decreases parts.len(),
{
    if parts.len() == 0 {
        Seq::empty()
    } else {
        "/*"@ + parts[0].0 + "*/"@ + parts[0].1 + spec_sheet(parts.drop_first())
    }
}

/// A part is well formed when its label does not close the comment early,
/// its rule text opens no comment of its own, and its rule text is
/// whitespace followed by one `@font-face` rule.
pub open spec fn wf_parts(parts: Seq<(Seq<char>, Seq<char>)>) -> bool {
    forall|k: int| 0 <= k < parts.len() ==> {
        &&& no_occurrence(#[trigger] parts[k].0, "*/"@)
        &&& no_occurrence(parts[k].1, "/*"@)
        &&& wf_content(parts[k].1)
    }
}

/// The records that the well-formed parts describe: one per part, its rule
/// text and its label, both trimmed.
pub open spec fn records_of(parts: Seq<(Seq<char>, Seq<char>)>) -> Seq<FontInfoV> {
    parts.map_values(
        |p: (Seq<char>, Seq<char>)| (FontInfoV { css: spec_trim(p.1), label: spec_trim(p.0) }),
    )
}

#[verifier::rlimit(80)]
proof fn lemma_sheet_segments(c: Seq<char>, parts: Seq<(Seq<char>, Seq<char>)>, label: Seq<char>)
    requires
        no_occurrence(c, "/*"@),
        wf_parts(parts),
    ensures
        spec_segments(c + spec_sheet(parts), label) == spec_rules(c, label) + records_of(parts),
    decreases parts.len(),
{
    reveal_strlit("/*");
    reveal_strlit("*/");
    let s = c + spec_sheet(parts);
    if parts.len() == 0 {
        assert(s =~= c);
        lemma_find_props(s, "/*"@, 0);
        match spec_find(s, "/*"@, 0) {
            Some(i) => {
                assert(occurs_at(c, "/*"@, i));
                assert(false);
            },
            None => {
            },
        }
        assert(records_of(parts) =~= Seq::<FontInfoV>::empty());
        assert(spec_rules(c, label) + records_of(parts) =~= spec_rules(c, label));
    } else {
        let l = parts[0].0;
        let c1 = parts[0].1;
        let rest = spec_sheet(parts.drop_first());
        let b = spec_sheet(parts);
        assert(b == "/*"@ + l + "*/"@ + c1 + rest);
        let cn = c.len() as int;
        let ln = l.len() as int;
        let istar = cn;
        let jstar = cn + 2 + ln;
        assert(s =~= c + "/*"@ + l + "*/"@ + c1 + rest);
        assert(s.len() == cn + 2 + ln + 2 + c1.len() + rest.len());
        // the characters at the two comment delimiters
        assert(s[istar] == '/' && s[istar + 1] == '*') by {
            assert((c + "/*"@ + l + "*/"@ + c1 + rest)[istar] == "/*"@[0]);
            assert((c + "/*"@ + l + "*/"@ + c1 + rest)[istar + 1] == "/*"@[1]);
        }
        assert(s[jstar] == '*' && s[jstar + 1] == '/') by {
            assert((c + "/*"@ + l + "*/"@ + c1 + rest)[jstar] == "*/"@[0]);
            assert((c + "/*"@ + l + "*/"@ + c1 + rest)[jstar + 1] == "*/"@[1]);
        }
        // the comment opener is found exactly at the end of the residual text
        assert(occurs_at(s, "/*"@, istar)) by {
            assert(s.subrange(istar, istar + 2) =~= "/*"@);
        }
        assert forall|q: int| 0 <= q < istar implies !occurs_at(s, "/*"@, q) by {
            if occurs_at(s, "/*"@, q) {
                if q + 2 <= cn {
                    lemma_occurs_subrange(s, "/*"@, 0, cn, q);
                    assert(s.subrange(0, cn) =~= c);
                    assert(occurs_at(c, "/*"@, q));
                } else {
                    // the occurrence would straddle the boundary: its second
                    // character is the '/' that opens the comment
                    assert(s.subrange(q, q + 2)[1] == s[q + 1]);
                    assert(s[q + 1] == '/');
                }
            }
        }
        lemma_find_exact(s, "/*"@, 0, istar);
        // the comment closer is found exactly after the label
        assert(occurs_at(s, "*/"@, jstar)) by {
            assert(s.subrange(jstar, jstar + 2) =~= "*/"@);
        }
        assert forall|q: int| istar + 2 <= q < jstar implies !occurs_at(s, "*/"@, q) by {
            if occurs_at(s, "*/"@, q) {
                if q + 2 <= jstar {
                    lemma_occurs_subrange(s, "*/"@, istar + 2, jstar, q);
                    assert(s.subrange(istar + 2, jstar) =~= l);
                    assert(occurs_at(l, "*/"@, q - (istar + 2)));
                } else {
                    // the occurrence would straddle the boundary: its second
                    // character is the '*' that closes the comment
                    assert(s.subrange(q, q + 2)[1] == s[q + 1]);
                    assert(s[q + 1] == '*');
                }
            }
        }
        lemma_find_exact(s, "*/"@, istar + 2, jstar);
        // the segment before the comment is the residual text
        assert(s.subrange(0, istar) =~= c);
        // the label of the comment
        assert(s.subrange(istar + 2, jstar) =~= l);
        // what follows the comment is the first rule text and the rest of
        // the sheet
        let tail = s.subrange(jstar + 2, s.len() as int);
        assert(tail =~= c1 + rest);
        assert(wf_parts(parts.drop_first())) by {
            assert forall|k: int| 0 <= k < parts.drop_first().len() implies {
                &&& no_occurrence(#[trigger] parts.drop_first()[k].0, "*/"@)
                &&& no_occurrence(parts.drop_first()[k].1, "/*"@)
                &&& wf_content(parts.drop_first()[k].1)
            } by {
                assert(parts.drop_first()[k] == parts[k + 1]);
            }
        }
        lemma_sheet_segments(c1, parts.drop_first(), spec_trim(l));
        lemma_single_rule(c1, spec_trim(l));
        assert(spec_segments(s, label) == spec_rules(c, label) + (seq![
            FontInfoV { css: spec_trim(c1), label: spec_trim(l) },
        ] + records_of(parts.drop_first())));
        assert(spec_rules(c, label) + (seq![FontInfoV { css: spec_trim(c1), label: spec_trim(l) }]
            + records_of(parts.drop_first())) =~= spec_rules(c, label) + records_of(parts)) by {
            assert(records_of(parts)[0] == (FontInfoV {
                css: spec_trim(parts[0].1),
                label: spec_trim(parts[0].0),
            }));
            assert forall|k: int| 0 <= k < parts.drop_first().len() implies records_of(
                parts.drop_first(),
            )[k] == records_of(parts)[k + 1] by {
                assert(parts.drop_first()[k] == parts[k + 1]);
            }
        }
    }
}

/// A stylesheet of well-formed labelled blocks splits into exactly one
/// record per block, in order, each carrying its own comment's label,
/// trimmed of surrounding whitespace.
pub proof fn lemma_split_labeled_blocks(parts: Seq<(Seq<char>, Seq<char>)>)
    requires
        wf_parts(parts),
    ensures
        spec_segments(spec_sheet(parts), Seq::empty()) == records_of(parts),
{
    reveal_strlit("/*");
    reveal_strlit("@font-face");
    assert forall|q: int| !occurs_at(Seq::<char>::empty(), "/*"@, q) by {
        assert("/*"@.len() == 2);
    }
    lemma_sheet_segments(Seq::empty(), parts, Seq::empty());
    assert(Seq::<char>::empty() + spec_sheet(parts) =~= spec_sheet(parts));
    lemma_find_props(Seq::<char>::empty(), "@font-face"@, 0);
    assert(spec_trim(Seq::<char>::empty()) =~= Seq::<char>::empty());
    assert(spec_rules(Seq::empty(), Seq::empty()) =~= Seq::<FontInfoV>::empty());
    assert(spec_rules(Seq::empty(), Seq::empty()) + records_of(parts) =~= records_of(parts));
}

/// A comment-free stylesheet as a plain concatenation of rule blocks.
pub open spec fn concat_blocks(blocks: Seq<Seq<char>>) -> Seq<char>
    decreases blocks.len(),
{
    if blocks.len() == 0 {
        Seq::empty()
    } else {
        blocks[0] + concat_blocks(blocks.drop_first())
    }
}

/// A block is well formed when it starts with its `@font-face` marker,
/// holds that marker nowhere else, and opens no comment.
pub open spec fn wf_blocks(blocks: Seq<Seq<char>>) -> bool {
    forall|k: int| 0 <= k < blocks.len() ==> {
        &&& occurs_at(#[trigger] blocks[k], "@font-face"@, 0)
        &&& (forall|q: int| q != 0 ==> !occurs_at(blocks[k], "@font-face"@, q))
        &&& no_occurrence(blocks[k], "/*"@)
    }
}

/// One record per block, trimmed, all under one label.
pub open spec fn block_records(blocks: Seq<Seq<char>>, label: Seq<char>) -> Seq<FontInfoV> {
    blocks.map_values(|b: Seq<char>| (FontInfoV { css: spec_trim(b), label }))
}

proof fn lemma_block_trim_nonempty(b: Seq<char>)
    requires
        occurs_at(b, "@font-face"@, 0),
    ensures
        ltrim_idx(b, 0) == 0,
        spec_trim(b).len() > 0,
{
    reveal_strlit("@font-face");
    // a block starts with '@' and so never trims to nothing
    assert(b.subrange(0, 10)[0] == b[0]);
    assert(b[0] == '@');
    lemma_rtrim_above(b, b.len() as int, 0);
    lemma_rtrim_bounds(b, b.len() as int);
}

proof fn lemma_marker_inner_char(s: Seq<char>, q: int, p: int)
    requires
        occurs_at(s, "@font-face"@, q),
        q < p < q + 10,
    ensures
        s[p] != '@',
{
    reveal_strlit("@font-face");
    let pat = "@font-face"@;
    // inside the marker, only its first character is an '@'
    assert(s.subrange(q, q + 10)[p - q] == s[p]);
    assert(pat[1] == 'f' && pat[2] == 'o' && pat[3] == 'n' && pat[4] == 't' && pat[5] == '-'
        && pat[6] == 'f' && pat[7] == 'a' && pat[8] == 'c' && pat[9] == 'e');
}

#[verifier::rlimit(100)]
proof fn lemma_marker_at_boundary(b0: Seq<char>, rest: Seq<char>)
    requires
        occurs_at(b0, "@font-face"@, 0),
        forall|q: int| q != 0 ==> !occurs_at(b0, "@font-face"@, q),
        occurs_at(rest, "@font-face"@, 0),
    ensures
        spec_find(b0 + rest, "@font-face"@, 1) == Some(b0.len() as int),
{
    reveal_strlit("@font-face");
    let pat = "@font-face"@;
    let s = b0 + rest;
    let n0 = b0.len() as int;
    assert(s.subrange(0, n0) =~= b0);
    assert(s.subrange(n0, s.len() as int) =~= rest);
    assert(occurs_at(s, pat, n0)) by {
        lemma_occurs_subrange(s, pat, n0, s.len() as int, n0);
    }
    assert(s[n0] == '@') by {
        assert(s.subrange(n0, n0 + 10)[0] == s[n0]);
        assert(rest.subrange(0, 10)[0] == rest[0]);
    }
    assert forall|q: int| 1 <= q < n0 implies !occurs_at(s, pat, q) by {
        if occurs_at(s, pat, q) {
            if q + 10 <= n0 {
                lemma_occurs_subrange(s, pat, 0, n0, q);
                assert(occurs_at(b0, pat, q));
            } else {
                lemma_marker_inner_char(s, q, n0);
            }
        }
    }
    lemma_find_exact(s, pat, 1, n0);
}

#[verifier::rlimit(100)]
proof fn lemma_rules_of_blocks(blocks: Seq<Seq<char>>, label: Seq<char>)
    requires
        wf_blocks(blocks),
    ensures
        spec_rules(concat_blocks(blocks), label) == block_records(blocks, label),
    decreases blocks.len(),
{
    reveal_strlit("@font-face");
    let pat = "@font-face"@;
    let s = concat_blocks(blocks);
    if blocks.len() == 0 {
        assert(s =~= Seq::<char>::empty());
        lemma_find_props(s, pat, 0);
        assert(spec_trim(s) =~= Seq::<char>::empty());
        assert(spec_rules(s, label) =~= block_records(blocks, label));
    } else {
        let b0 = blocks[0];
        let rest = concat_blocks(blocks.drop_first());
        let n0 = b0.len() as int;
        assert(s == b0 + rest);
        assert(s.subrange(0, n0) =~= b0);
        // the first block's marker stands at the very start
        assert(occurs_at(s, pat, 0)) by {
            assert(s.subrange(0, 10) =~= b0.subrange(0, 10));
        }
        lemma_find_exact(s, pat, 0, 0);
        assert(spec_trim(s.subrange(0, 0)).len() == 0) by {
            assert(s.subrange(0, 0) =~= Seq::<char>::empty());
        }
        lemma_block_trim_nonempty(b0);
        if blocks.len() == 1 {
            assert(s =~= b0);
            lemma_find_props(s, pat, 1);
            match spec_find(s, pat, 1) {
                Some(q) => {
                    assert(occurs_at(b0, pat, q));
                    assert(false);
                },
                None => {
                },
            }
            assert(s.subrange(0, s.len() as int) =~= b0);
            assert(spec_rules(s, label) =~= block_records(blocks, label));
        } else {
            assert(wf_blocks(blocks.drop_first())) by {
                assert forall|k: int| 0 <= k < blocks.drop_first().len() implies {
                    &&& occurs_at(#[trigger] blocks.drop_first()[k], pat, 0)
                    &&& (forall|q: int| q != 0 ==> !occurs_at(blocks.drop_first()[k], pat, q))
                    &&& no_occurrence(blocks.drop_first()[k], "/*"@)
                } by {
                    assert(blocks.drop_first()[k] == blocks[k + 1]);
                }
            }
            let b1 = blocks[1];
            assert(blocks.drop_first()[0] == b1);
            assert(rest == b1 + concat_blocks(blocks.drop_first().drop_first()));
            assert(s.subrange(n0, s.len() as int) =~= rest);
            // the next block's marker is found right at the boundary
            assert(occurs_at(rest, pat, 0)) by {
                assert(rest.subrange(0, 10) =~= b1.subrange(0, 10));
            }
            lemma_marker_at_boundary(b0, rest);
            lemma_rules_of_blocks(blocks.drop_first(), label);
            assert(spec_rules(s, label) == segment_of(spec_trim(s.subrange(0, 0)), label)
                + segment_of(spec_trim(b0), label) + block_records(blocks.drop_first(), label));
            assert(segment_of(spec_trim(s.subrange(0, 0)), label) + segment_of(
                spec_trim(b0),
                label,
            ) + block_records(blocks.drop_first(), label) =~= block_records(blocks, label)) by {
                assert(block_records(blocks, label)[0] == (FontInfoV {
                    css: spec_trim(blocks[0]),
                    label,
                }));
                assert forall|k: int| 0 <= k < blocks.drop_first().len() implies block_records(
                    blocks.drop_first(),
                    label,
                )[k] == block_records(blocks, label)[k + 1] by {
                    assert(blocks.drop_first()[k] == blocks[k + 1]);
                }
            }
        }
    }
}

proof fn lemma_concat_no_open(blocks: Seq<Seq<char>>)
    requires
        wf_blocks(blocks),
    ensures
        no_occurrence(concat_blocks(blocks), "/*"@),
    decreases blocks.len(),
{
    reveal_strlit("/*");
    reveal_strlit("@font-face");
    let s = concat_blocks(blocks);
    if blocks.len() == 0 {
        assert forall|q: int| !occurs_at(s, "/*"@, q) by {
            assert(s =~= Seq::<char>::empty());
        }
    } else {
        let b0 = blocks[0];
        let rest = concat_blocks(blocks.drop_first());
        let n0 = b0.len() as int;
        assert(s == b0 + rest);
        assert(s.subrange(0, n0) =~= b0);
        assert(s.subrange(n0, s.len() as int) =~= rest);
        assert(wf_blocks(blocks.drop_first())) by {
            assert forall|k: int| 0 <= k < blocks.drop_first().len() implies {
                &&& occurs_at(#[trigger] blocks.drop_first()[k], "@font-face"@, 0)
                &&& (forall|q: int|
                    q != 0 ==> !occurs_at(blocks.drop_first()[k], "@font-face"@, q))
                &&& no_occurrence(blocks.drop_first()[k], "/*"@)
            } by {
                assert(blocks.drop_first()[k] == blocks[k + 1]);
            }
        }
        lemma_concat_no_open(blocks.drop_first());
        assert forall|q: int| !occurs_at(s, "/*"@, q) by {
            if occurs_at(s, "/*"@, q) {
                if q + 2 <= n0 {
                    lemma_occurs_subrange(s, "/*"@, 0, n0, q);
                    assert(occurs_at(b0, "/*"@, q));
                } else if q < n0 {
                    // the occurrence would straddle the boundary, where the
                    // next block's '@' stands in place of the '*'
                    assert(rest.len() > 0);
                    if blocks.len() == 1 {
                        assert(rest =~= Seq::<char>::empty());
                        assert(false);
                    }
                    let b1 = blocks[1];
                    assert(blocks.drop_first()[0] == b1);
                    assert(rest == b1 + concat_blocks(blocks.drop_first().drop_first()));
                    assert(b1.subrange(0, 10)[0] == b1[0]);
                    assert(s[n0] == '@');
                    assert(s.subrange(q, q + 2)[1] == s[q + 1]);
                } else {
                    lemma_occurs_subrange(s, "/*"@, n0, s.len() as int, q);
                    assert(occurs_at(rest, "/*"@, q - n0));
                }
            }
        }
    }
}

/// A comment-free stylesheet that is a plain concatenation of well-formed
/// `@font-face` blocks splits into exactly one record per block, in
/// order, each the trimmed block, every one carrying the empty label.
pub proof fn lemma_split_comment_free_blocks(blocks: Seq<Seq<char>>)
    requires
        wf_blocks(blocks),
    ensures
        spec_segments(concat_blocks(blocks), Seq::empty()) == block_records(
            blocks,
            Seq::empty(),
        ),
        spec_segments(concat_blocks(blocks), Seq::empty()).len() == blocks.len(),
{
    lemma_concat_no_open(blocks);
    lemma_split_no_comments(concat_blocks(blocks), Seq::empty());
    lemma_rules_of_blocks(blocks, Seq::empty());
}

/// The character `c` occurs nowhere in `s`.
pub open spec fn no_char(s: Seq<char>, c: char) -> bool {
    forall|k: int| 0 <= k < s.len() ==> s[k] != c
}

proof fn lemma_url_of_shaped(p: Seq<char>, u: Seq<char>, q: Seq<char>)
    requires
        no_char(u, ';'),
        no_char(u, ')'),
        spec_trim_quotes(u) == u,
        spec_find(p + "src: "@ + "url("@ + u + ")"@ + q, "src: "@, 0) == Some(p.len() as int),
    ensures
        spec_url(p + "src: "@ + "url("@ + u + ")"@ + q) == Some(u),
{
    reveal_strlit("src: ");
    reveal_strlit("url(");
    reveal_strlit(")");
    reveal_strlit(";");
    let css = p + "src: "@ + "url("@ + u + ")"@ + q;
    let pn = p.len() as int;
    let un = u.len() as int;
    let start = pn + 5;
    lemma_find_props(css, "src: "@, 0);
    // no statement terminator stands inside `url(u)`
    assert forall|k: int| start <= k < start + 5 + un implies css[k] != ';' by {
        if k < start + 4 {
            assert(css[k] == "url("@[k - start]);
        } else if k < start + 4 + un {
            assert(css[k] == u[k - start - 4]);
        } else {
            assert(css[k] == ")"@[0]);
        }
    }
    lemma_find_props(css, ";"@, start);
    let sp = match spec_find(css, ";"@, start) {
        None => css.subrange(start, css.len() as int),
        Some(j) => css.subrange(start, j),
    };
    let qq = sp.subrange(5 + un, sp.len() as int);
    assert(sp =~= "url("@ + u + ")"@ + qq) by {
        match spec_find(css, ";"@, start) {
            None => {
            },
            Some(j) => {
                assert(css.subrange(j, j + 1)[0] == css[j]);
                assert(css[j] == ';');
                assert(j >= start + 5 + un);
            },
        }
    }
    // the URL opener is found at the very start of the src text
    assert(occurs_at(sp, "url("@, 0)) by {
        assert(sp.subrange(0, 4) =~= "url("@);
    }
    lemma_find_exact(sp, "url("@, 0, 0);
    // the closing parenthesis is found right after the URL text
    assert(occurs_at(sp, ")"@, 4 + un)) by {
        assert(sp.subrange(4 + un, 5 + un) =~= ")"@);
    }
    assert forall|r: int| 4 <= r < 4 + un implies !occurs_at(sp, ")"@, r) by {
        if occurs_at(sp, ")"@, r) {
            assert(sp.subrange(r, r + 1)[0] == sp[r]);
            assert(sp[r] == u[r - 4]);
        }
    }
    lemma_find_exact(sp, ")"@, 4, 4 + un);
    assert(sp.subrange(4, 4 + un) =~= u);
}

/// Round trip of the textual-substitution rewrite: in a stylesheet of the
/// shape `p src: url(u) q` whose URL text `u` occurs nowhere else,
/// replacing `u` by a new URL yields the same stylesheet around the new
/// URL, and re-extracting finds exactly that URL — `get_new_css` builds it
/// as `{prefix}/{derived binary filename}`. The URLs may not hold `;`,
/// `)` or surrounding quotes, which would derail the extraction.
pub proof fn lemma_rewrite_round_trip(
    css: Seq<char>,
    p: Seq<char>,
    u: Seq<char>,
    q: Seq<char>,
    nu: Seq<char>,
)
    requires
        css == p + "src: "@ + "url("@ + u + ")"@ + q,
        u.len() > 0,
        no_char(u, ';'),
        no_char(u, ')'),
        spec_trim_quotes(u) == u,
        no_char(nu, ';'),
        no_char(nu, ')'),
        spec_trim_quotes(nu) == nu,
        spec_find(css, "src: "@, 0) == Some(p.len() as int),
        forall|r: int| r != p.len() + 9 ==> !occurs_at(css, u, r),
    ensures
        spec_url(css) == Some(u),
        spec_replace(css, u, nu) == p + "src: "@ + "url("@ + nu + ")"@ + q,
        spec_url(spec_replace(css, u, nu)) == Some(nu),
{
    reveal_strlit("src: ");
    reveal_strlit("url(");
    reveal_strlit(")");
    let pn = p.len() as int;
    let un = u.len() as int;
    let iu = pn + 9;
    lemma_url_of_shaped(p, u, q);
    // the URL text is found exactly at its place inside `url(...)`
    assert(occurs_at(css, u, iu)) by {
        assert(css.subrange(iu, iu + un) =~= u);
    }
    lemma_find_exact(css, u, 0, iu);
    // nothing after it is replaced: the URL text does not occur again
    let tail = css.subrange(iu + un, css.len() as int);
    assert(spec_find(tail, u, 0) is None) by {
        lemma_find_props(tail, u, 0);
        match spec_find(tail, u, 0) {
            Some(r) => {
                lemma_occurs_subrange(css, u, iu + un, css.len() as int, iu + un + r);
                assert(occurs_at(css, u, iu + un + r));
                assert(false);
            },
            None => {
            },
        }
    }
    let new_css = spec_replace(css, u, nu);
    assert(new_css =~= p + "src: "@ + "url("@ + nu + ")"@ + q) by {
        assert(spec_replace(tail, u, nu) == tail);
        assert(css.subrange(0, iu) =~= p + "src: "@ + "url("@);
        assert(tail =~= ")"@ + q);
    }
    // the `src: ` label is still found at the same place: the stylesheet
    // is unchanged up to and including `url(`
    assert(spec_find(new_css, "src: "@, 0) == Some(pn)) by {
        assert(occurs_at(new_css, "src: "@, pn)) by {
            assert(new_css.subrange(pn, pn + 5) =~= "src: "@);
        }
        lemma_find_props(css, "src: "@, 0);
        assert forall|r: int| 0 <= r < pn implies !occurs_at(new_css, "src: "@, r) by {
            if occurs_at(new_css, "src: "@, r) {
                lemma_occurs_subrange(new_css, "src: "@, 0, pn + 9, r);
                assert(new_css.subrange(0, pn + 9) =~= css.subrange(0, pn + 9));
                lemma_occurs_subrange(css, "src: "@, 0, pn + 9, r);
                assert(occurs_at(css, "src: "@, r));
            }
        }
        lemma_find_exact(new_css, "src: "@, 0, pn);
    }
    lemma_url_of_shaped(p, nu, q);
}

/// Filename derivation is a pure function of the record: equal records
/// yield byte-identical binary and CSS filenames. Together with the
/// contracts of `get_font_filename` and `get_css_filename`, whose results
/// equal these spec functions of the record's value, two invocations on
/// equal records return identical pairs.
pub proof fn lemma_filename_derivation_pure(a: FontInfoV, b: FontInfoV)
    requires
        a == b,
    ensures
        spec_font_filename(a) == spec_font_filename(b),
        spec_css_filename(a) == spec_css_filename(b),
{
}

} // verus!
