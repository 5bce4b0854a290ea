//! Clause-level layout helpers: river-aligned lines and indented blocks.

use vstd::prelude::*;
use crate::chars::{chars_of, string_of};
use crate::config::Formatter;
use crate::expr::{continuation_lines, string_views};
use crate::lexical::append_all;
use crate::text::{utf8_width, byte_len, byte_len_of, char_views, contains_char, lines, lines_of,
    push_spaces, small, spaces};

verus! {

/// What `river_line` writes: `keyword` right-aligned in `width` bytes, a
/// space, then `content`, with continuation lines of multi-line content
/// indented to the content's column.
pub open spec fn river_line_text(keyword: Seq<char>, content: Seq<char>, width: nat) -> Seq<char> {
    let kb = byte_len(keyword);
    let padding = if kb < width { spaces((width - kb) as nat) } else { Seq::empty() };
    let first_line = padding + keyword + seq![' '];
    if content.contains('\n') {
        let ls = lines_of(content);
        let head = if ls.len() > 0 { ls[0] } else { Seq::empty() };
        first_line + head + continuation_lines(ls, 1, spaces(byte_len(first_line)))
    } else {
        first_line + content
    }
}

/// The lines of `text`, each prefixed by `indent` unless it is empty.
pub open spec fn indented_lines(text: Seq<char>, indent: Seq<char>) -> Seq<Seq<char>> {
    lines_of(text).map_values(|l: Seq<char>| if l.len() == 0 { l } else { indent + l })
}

impl<'a> Formatter<'a> {
    /// A river-aligned line: `keyword` right-aligned in the given width.
    pub fn river_line(&self, keyword: &str, content: &str, width: usize) -> (r: String)
        requires
            small(keyword@),
            width < usize::MAX,
        ensures
            r@ == river_line_text(keyword@, content@, width as nat),
    {
        let kc = chars_of(keyword);
        let cc = chars_of(content);
        let kb = byte_len_of(&kc);
        proof { crate::text::lemma_byte_len_bound(kc@); }
        let mut first: Vec<char> = Vec::new();
        if kb < width {
            push_spaces(&mut first, width - kb);
        }
        append_all(&mut first, &kc);
        first.push(' ');
        let mut out: Vec<char> = Vec::new();
        append_all(&mut out, &first);
        assert(out@ == first@);
        assert(first@ == (if byte_len(kc@) < width { spaces((width - byte_len(kc@)) as nat) } else { Seq::empty() }) + kc@ + seq![' ']);
        if contains_char(&cc, '\n') {
            let fb = first_line_bytes(kb, width);
            proof {
                let pad: nat = if kb < width { (width - kb) as nat } else { 0 };
                crate::text::lemma_byte_len_concat(spaces(pad), kc@);
                crate::text::lemma_byte_len_concat(spaces(pad) + kc@, seq![' ']);
                lemma_byte_len_spaces(pad);
                assert(byte_len(seq![' ']) == 1) by {
                    assert(seq![' '].drop_last() =~= Seq::<char>::empty());
                    assert(byte_len(Seq::<char>::empty()) == 0);
                    assert(seq![' '].last() == ' ');
                    assert(utf8_width(' ') == 1);
                }
                if kb < width {
                    assert(first@ =~= spaces(pad) + kc@ + seq![' ']);
                } else {
                    assert(spaces(0) =~= Seq::<char>::empty());
                    assert(first@ =~= spaces(pad) + kc@ + seq![' ']);
                }
                assert(fb == byte_len(first@));
            }
            let ls = lines(&cc);
            let ghost lv = char_views(ls@);
            if ls.len() > 0 {
                append_all(&mut out, &ls[0]);
                assert(lv[0] == ls@[0]@);
            }
            let ghost head = out@;
            let mut k: usize = 1;
            while k < ls.len()
                invariant
                    1 <= k,
                    k <= ls@.len() || ls@.len() == 0,
                    lv == char_views(ls@),
                    out@ + continuation_lines(lv, k as int, spaces(fb as nat))
                        == head + continuation_lines(lv, 1, spaces(fb as nat)),
                decreases ls.len() - k,
            {
                let ghost before = out@;
                out.push('\n');
                push_spaces(&mut out, fb);
                append_all(&mut out, &ls[k]);
                assert(lv[k as int] == ls@[k as int]@);
                assert(out@ + continuation_lines(lv, k + 1, spaces(fb as nat))
                    =~= before + continuation_lines(lv, k as int, spaces(fb as nat)));
                k += 1;
            }
            assert(out@ =~= out@ + continuation_lines(lv, k as int, spaces(fb as nat)));
        } else {
            append_all(&mut out, &cc);
        }
        string_of(&out)
    }

    /// Push a possibly multi-line text with each non-empty line prefixed by `indent`.
    pub fn push_indented_multiline(lines_out: &mut Vec<String>, indent: &str, text: &str)
        ensures
            string_views(final(lines_out)@) == string_views(old(lines_out)@) + indented_lines(text@, indent@),
    {
        let tc = chars_of(text);
        let ic = chars_of(indent);
        let ls = lines(&tc);
        let ghost lv = char_views(ls@);
        let ghost want = indented_lines(text@, indent@);
        let mut k: usize = 0;
        while k < ls.len()
            invariant
                k <= ls@.len(),
                lv == char_views(ls@),
                lv == lines_of(text@),
                want == indented_lines(text@, indent@),
                ic@ == indent@,
                string_views(lines_out@) == string_views(old(lines_out)@) + want.take(k as int),
            decreases ls.len() - k,
        {
            assert(lv[k as int] == ls@[k as int]@);
            let mut line: Vec<char> = Vec::new();
            if ls[k].len() > 0 {
                append_all(&mut line, &ic);
            }
            append_all(&mut line, &ls[k]);
            let ghost before = lines_out@;
            lines_out.push(string_of(&line));
            assert(want.take(k + 1) =~= want.take(k as int).push(want[k as int]));
            assert(string_views(lines_out@) =~= string_views(before).push(line@));
            k += 1;
        }
        assert(want.take(k as int) =~= want);
    }
}

/// Byte length of a first river line: the keyword padded to `width`, and a space.
fn first_line_bytes(kb: usize, width: usize) -> (r: usize)
    requires
        width < usize::MAX,
        kb <= usize::MAX / 2,
    ensures
        r == (if kb < width { width } else { kb }) + 1,
{
    if kb < width { width + 1 } else { kb + 1 }
}

pub proof fn lemma_byte_len_spaces(n: nat)
    ensures
        byte_len(spaces(n)) == n,
    decreases n,
{
    if n > 0 {
        assert(spaces(n).drop_last() =~= spaces((n - 1) as nat));
        lemma_byte_len_spaces((n - 1) as nat);
    }
}

} // verus!
