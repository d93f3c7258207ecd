//! Decisions around the external OCR tooling.
//!
//! Running the tool, probing the filesystem and downloading the installer
//! are thin OS wrappers outside the library; what is verified here is each
//! decision they feed on: which tool path to use, which line of a lookup's
//! output names a candidate, which links of a directory listing offer the
//! installer, and which of those is the latest.

use vstd::prelude::*;
use crate::capture::text_view;
use crate::text::{
    ends_with,
    find_char,
    find_char_in,
    find_sub,
    find_sub_in,
    lemma_lex_lt_irrefl,
    lemma_lex_lt_trans,
    lex_lt,
    starts_with,
    str_ends_with,
    str_lt,
    str_starts_with,
    trim_of,
    trim_seq,
};

verus! {

/// The tool path to use: an explicitly configured path when it holds more
/// than whitespace, else whatever detection found.
pub open spec fn picked_tool_path(
    explicit: Option<Seq<char>>,
    detected: Option<Seq<char>>,
) -> Option<Seq<char>> {
    match explicit {
        Some(p) => if trim_seq(p).len() > 0 {
            Some(p)
        } else {
            detected
        },
        None => detected,
    }
}

/// Picks the tool path, matching `picked_tool_path`.
pub fn pick_tool_path(explicit: Option<String>, detected: Option<String>) -> (r: Option<String>)
    ensures
        text_view(r) == picked_tool_path(text_view(explicit), text_view(detected)),
{
    match explicit {
        Some(p) => {
            if !trim_of(p.as_str()).is_empty() {
                Some(p)
            } else {
                detected
            }
        }
        None => detected,
    }
}

/// The first line that holds more than whitespace, trimmed.
pub open spec fn first_nonblank_line(s: Seq<char>) -> Option<Seq<char>>
    decreases s.len(),
    via first_nonblank_line_decreases
{
    match find_char(s, '\n') {
        None => if trim_seq(s).len() > 0 {
            Some(trim_seq(s))
        } else {
            None
        },
        Some(i) => {
            let line = s.subrange(0, i);
            if trim_seq(line).len() > 0 {
                Some(trim_seq(line))
            } else {
                first_nonblank_line(s.subrange(i + 1, s.len() as int))
            }
        }
    }
}

#[via_fn]
proof fn first_nonblank_line_decreases(s: Seq<char>) {
    crate::text::lemma_find_char(s, '\n');
}

/// The first non-blank line of a tool lookup's output, trimmed — the
/// candidate path such a lookup names, matching `first_nonblank_line`.
pub fn first_nonempty_trimmed_line(s: &str) -> (r: Option<String>)
    ensures
        match r {
            Some(t) => first_nonblank_line(s@) == Some(t@),
            None => first_nonblank_line(s@) is None,
        },
    decreases s@.len(),
{
    let n: usize = s.unicode_len();
    match find_char_in(s, '\n') {
        None => {
            let t: &str = trim_of(s);
            if !t.is_empty() {
                Some(t.to_owned())
            } else {
                None
            }
        }
        Some(i) => {
            let line: &str = s.substring_char(0, i);
            proof {
                assert(line@ =~= s@.subrange(0, i as int));
            }
            let t: &str = trim_of(line);
            if !t.is_empty() {
                Some(t.to_owned())
            } else {
                let rest: &str = s.substring_char(i + 1, n);
                proof {
                    assert(rest@ =~= s@.subrange(i + 1, s@.len() as int));
                }
                first_nonempty_trimmed_line(rest)
            }
        }
    }
}

/// The marker standing before each link of a directory listing.
pub open spec fn href_marker() -> Seq<char> {
    seq!['h', 'r', 'e', 'f', '=', '"']
}

/// A link that offers the 64-bit setup executable.
pub open spec fn wanted_link(link: Seq<char>) -> bool {
    starts_with(link, "tesseract-ocr-w64-setup"@) && ends_with(link, ".exe"@)
}

/// Every wanted link of a directory listing, in order: the text between
/// each link marker and the closing quote, kept when it offers the setup
/// executable.
pub open spec fn setup_links(s: Seq<char>) -> Seq<Seq<char>>
    decreases s.len(),
    via setup_links_decreases
{
    match find_sub(s, href_marker()) {
        None => Seq::empty(),
        Some(i) => {
            let after = s.subrange(i + 6, s.len() as int);
            match find_char(after, '"') {
                None => Seq::empty(),
                Some(j) => {
                    let link = after.subrange(0, j);
                    let rest = after.subrange(j + 1, after.len() as int);
                    if wanted_link(link) {
                        seq![link] + setup_links(rest)
                    } else {
                        setup_links(rest)
                    }
                }
            }
        }
    }
}

#[via_fn]
proof fn setup_links_decreases(s: Seq<char>) {
    crate::text::lemma_find_sub(s, href_marker());
    match find_sub(s, href_marker()) {
        Some(i) => {
            let after = s.subrange(i + 6, s.len() as int);
            crate::text::lemma_find_char(after, '"');
        }
        None => {
        }
    }
}

/// The links of a link vector, as mathematical values.
pub open spec fn links_view(v: Seq<String>) -> Seq<Seq<char>> {
    v.map_values(|s: String| s@)
}

/// Every wanted setup link of a directory listing, matching `setup_links`.
pub fn extract_setup_links(html: &str) -> (r: Vec<String>)
    ensures
        links_view(r@) == setup_links(html@),
    decreases html@.len(),
{
    proof {
        reveal_strlit("href=\"");
        assert("href=\""@ =~= href_marker());
    }
    let n: usize = html.unicode_len();
    match find_sub_in(html, "href=\"") {
        None => {
            let r: Vec<String> = Vec::new();
            proof {
                assert(links_view(r@) =~= setup_links(html@));
            }
            r
        }
        Some(i) => {
            let after: &str = html.substring_char(i + 6, n);
            proof {
                assert(after@ =~= html@.subrange(i + 6, html@.len() as int));
            }
            match find_char_in(after, '"') {
                None => {
                    let r: Vec<String> = Vec::new();
                    proof {
                        assert(links_view(r@) =~= setup_links(html@));
                    }
                    r
                }
                Some(j) => {
                    let m: usize = after.unicode_len();
                    let link: &str = after.substring_char(0, j);
                    let rest: &str = after.substring_char(j + 1, m);
                    proof {
                        assert(link@ =~= after@.subrange(0, j as int));
                        assert(rest@ =~= after@.subrange(j + 1, after@.len() as int));
                    }
                    let wanted: bool = str_starts_with(link, "tesseract-ocr-w64-setup")
                        && str_ends_with(link, ".exe");
                    let mut tail: Vec<String> = extract_setup_links(rest);
                    if wanted {
                        let mut out: Vec<String> = Vec::new();
                        out.push(link.to_owned());
                        out.append(&mut tail);
                        proof {
                            assert(links_view(out@) =~= seq![link@] + setup_links(rest@));
                        }
                        out
                    } else {
                        tail
                    }
                }
            }
        }
    }
}

/// The installer link to download: the lexicographically latest wanted link
/// of the directory listing, when the listing offers any.
pub fn latest_setup_link(html: &str) -> (r: Option<String>)
    ensures
        match r {
            Some(best) => setup_links(html@).contains(best@) && (forall|k: int|
                0 <= k < setup_links(html@).len() ==> !lex_lt(
                    best@,
                    #[trigger] setup_links(html@)[k],
                )),
            None => setup_links(html@).len() == 0,
        },
{
    let links: Vec<String> = extract_setup_links(html);
    proof {
        assert(forall|k: int|
            0 <= k < links@.len() ==> #[trigger] setup_links(html@)[k] == links@[k]@);
    }
    if links.len() == 0 {
        return None;
    }
    let mut best_idx: usize = 0;
    let mut idx: usize = 1;
    proof {
        lemma_lex_lt_irrefl(links@[0]@);
    }
    while idx < links.len()
        invariant
            0 <= best_idx < links@.len(),
            1 <= idx <= links@.len(),
            links_view(links@) == setup_links(html@),
            forall|k: int| 0 <= k < idx ==> !lex_lt(links@[best_idx as int]@, #[trigger] links@[k]@),
        decreases links@.len() - idx,
    {
        let ghost ob = links@[best_idx as int]@;
        let ghost nb = links@[idx as int]@;
        if str_lt(links[best_idx].as_str(), links[idx].as_str()) {
            proof {
                assert forall|k: int| 0 <= k < idx + 1 implies !lex_lt(nb, links@[k]@) by {
                    if k < idx {
                        if lex_lt(nb, links@[k]@) {
                            lemma_lex_lt_trans(ob, nb, links@[k]@);
                        }
                    } else {
                        lemma_lex_lt_irrefl(nb);
                    }
                }
            }
            best_idx = idx;
        } else {
            proof {
                assert(forall|k: int|
                    0 <= k < idx + 1 ==> !lex_lt(links@[best_idx as int]@, #[trigger] links@[k]@));
            }
        }
        idx = idx + 1;
    }
    let best: String = links[best_idx].clone();
    proof {
        assert(setup_links(html@)[best_idx as int] == best@);
        assert(setup_links(html@).contains(best@));
    }
    Some(best)
}

} // verus!
