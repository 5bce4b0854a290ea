//! The layout styles that the formatter knows.

use vstd::prelude::*;
use crate::chars::{chars_of, lower_text, push_str, string_from, to_lower};
use crate::lexical::eq_chars;

verus! {

/// A SQL layout style.
#[derive(Debug, Clone, Copy, PartialEq, Eq, Structural, Hash)]
pub enum Style {
    /// Keywords right-aligned to form a visual river.
    River,
    /// Keywords left-aligned, content indented four spaces.
    Mozilla,
    /// River layout with JOINs taking part in the keyword alignment.
    Aweber,
    /// Lowercase keywords and blank lines between clauses.
    Dbt,
    /// Two-space indent, uppercase keywords.
    Gitlab,
    /// Two-space indent, compact JOIN ... ON lines.
    Kickstarter,
    /// Lowercase river with leading commas.
    Mattmc3,
    /// The layout of PostgreSQL's own deparser.
    PgDump,
}

/// The name under which a style is written and parsed.
pub open spec fn style_name(s: Style) -> Seq<char> {
    match s {
        Style::River => seq!['r', 'i', 'v', 'e', 'r'],
        Style::Mozilla => seq!['m', 'o', 'z', 'i', 'l', 'l', 'a'],
        Style::Aweber => seq!['a', 'w', 'e', 'b', 'e', 'r'],
        Style::Dbt => seq!['d', 'b', 't'],
        Style::Gitlab => seq!['g', 'i', 't', 'l', 'a', 'b'],
        Style::Kickstarter => seq!['k', 'i', 'c', 'k', 's', 't', 'a', 'r', 't', 'e', 'r'],
        Style::Mattmc3 => seq!['m', 'a', 't', 't', 'm', 'c', '3'],
        Style::PgDump => seq!['p', 'g', '_', 'd', 'u', 'm', 'p'],
    }
}

impl Style {
    /// The style's name, as `Display` writes it.
    pub fn name(&self) -> (r: &'static str)
        ensures
            r@ == style_name(*self),
    {
        match self {
            Style::River => {
                proof { reveal_strlit("river"); }
                "river"
            },
            Style::Mozilla => {
                proof { reveal_strlit("mozilla"); }
                "mozilla"
            },
            Style::Aweber => {
                proof { reveal_strlit("aweber"); }
                "aweber"
            },
            Style::Dbt => {
                proof { reveal_strlit("dbt"); }
                "dbt"
            },
            Style::Gitlab => {
                proof { reveal_strlit("gitlab"); }
                "gitlab"
            },
            Style::Kickstarter => {
                proof { reveal_strlit("kickstarter"); }
                "kickstarter"
            },
            Style::Mattmc3 => {
                proof { reveal_strlit("mattmc3"); }
                "mattmc3"
            },
            Style::PgDump => {
                proof { reveal_strlit("pg_dump"); }
                "pg_dump"
            },
        }
    }
}

/// The message for a style name that names no style.
pub open spec fn unsupported_style_message(s: Seq<char>) -> Seq<char> {
    "Unsupported style: '"@ + s + "'"@
}

/// Every style, in declaration order.
pub open spec fn all_styles() -> Seq<Style> {
    seq![
        Style::River,
        Style::Mozilla,
        Style::Aweber,
        Style::Dbt,
        Style::Gitlab,
        Style::Kickstarter,
        Style::Mattmc3,
    ]
}

impl Style {
    /// All available styles.
    pub fn all() -> (r: Vec<Style>)
        ensures
            r@ == all_styles(),
    {
        let r = vec![
            Style::River,
            Style::Mozilla,
            Style::Aweber,
            Style::Dbt,
            Style::Gitlab,
            Style::Kickstarter,
            Style::Mattmc3,
        ];
        assert(r@ =~= all_styles());
        r
    }

    /// The style whose name is `s`, compared without regard to case.
    pub fn from_name(s: &str) -> (r: Result<Style, String>)
        ensures
            match r {
                Ok(st) => all_styles().contains(st) && style_name(st) == lower_text(s@),
                Err(msg) => (forall|st: Style| all_styles().contains(st) ==> style_name(st) != lower_text(s@))
                    && msg@ == unsupported_style_message(s@),
            },
            forall|st: Style| all_styles().contains(st) && style_name(st) == s@ ==> (r matches Ok(x) && x == st),
    {
        proof { lemma_style_names_plain(); }
        let lower = to_lower(s);
        proof {
            assert forall|st: Style| style_name(st) == s@ implies lower@ == s@ by {
                assert forall|k: int| 0 <= k < s@.len() implies crate::chars::is_lower_plain_char(#[trigger] s@[k]) by {
                    assert(s@[k] == style_name(st)[k]);
                }
            }
        }
        let lc = chars_of(lower.as_str());
        let styles = Style::all();
        let mut k: usize = 0;
        while k < styles.len()
            invariant
                k <= styles@.len(),
                styles@ == all_styles(),
                lc@ == lower_text(s@),
                forall|st: Style| style_name(st) == s@ ==> lc@ == s@,
                forall|x: int| 0 <= x < k ==> style_name(#[trigger] styles@[x]) != lc@,
            decreases styles.len() - k,
        {
            let st = styles[k];
            let name = chars_of(st.name());
            if eq_chars(&lc, &name) {
                proof {
                    assert(all_styles()[k as int] == st);
                    assert forall|other: Style| all_styles().contains(other) && style_name(other) == s@ implies st == other by {
                        law_style_names_distinct(st, other);
                    }
                }
                return Ok(st);
            }
            k += 1;
        }
        assert forall|st: Style| all_styles().contains(st) && style_name(st) == s@ implies false by {
            assert(style_name(st) == lower_text(s@));
            let x = choose|x: int| 0 <= x < all_styles().len() && all_styles()[x] == st;
            assert(style_name(styles@[x]) != lc@);
        }
        assert forall|st: Style| all_styles().contains(st) implies style_name(st) != lower_text(s@) by {
            let x = choose|x: int| 0 <= x < all_styles().len() && all_styles()[x] == st;
            assert(style_name(styles@[x]) != lc@);
        }
        let mut msg = string_from("Unsupported style: '");
        push_str(&mut msg, s);
        push_str(&mut msg, "'");
        Err(msg)
    }
}

/// Every style name is made of ASCII lowercase letters, digits and `_`.
pub proof fn lemma_style_names_plain()
    ensures
        forall|st: Style, k: int| 0 <= k < style_name(st).len()
            ==> crate::chars::is_lower_plain_char(#[trigger] style_name(st)[k]),
{
    assert forall|st: Style, k: int| 0 <= k < style_name(st).len()
        implies crate::chars::is_lower_plain_char(#[trigger] style_name(st)[k]) by {
        match st {
            Style::River => {},
            Style::Mozilla => {},
            Style::Aweber => {},
            Style::Dbt => {},
            Style::Gitlab => {},
            Style::Kickstarter => {},
            Style::Mattmc3 => {},
            Style::PgDump => {},
        }
    }
}

/// Different styles have different names, so a name gives back its style.
pub proof fn law_style_names_distinct(a: Style, b: Style)
    requires
        style_name(a) == style_name(b),
    ensures
        a == b,
{
    match (a, b) {
        (Style::River, Style::River) => {},
        (Style::Mozilla, Style::Mozilla) => {},
        (Style::Aweber, Style::Aweber) => {},
        (Style::Dbt, Style::Dbt) => {},
        (Style::Gitlab, Style::Gitlab) => {},
        (Style::Kickstarter, Style::Kickstarter) => {},
        (Style::Mattmc3, Style::Mattmc3) => {},
        (Style::PgDump, Style::PgDump) => {},
        _ => {
            assert(style_name(a).len() != style_name(b).len() || style_name(a)[0] != style_name(b)[0]
                || style_name(a)[1] != style_name(b)[1] || style_name(a)[2] != style_name(b)[2]);
        },
    }
}

impl Default for Style {
    /// The AWeber style.
    fn default() -> (r: Style)
        ensures
            r == Style::Aweber,
    {
        Style::Aweber
    }
}

impl std::str::FromStr for Style {
    type Err = String;

    fn from_str(s: &str) -> (r: Result<Style, String>)
        ensures
            match r {
                Ok(st) => all_styles().contains(st) && style_name(st) == lower_text(s@),
                Err(msg) => (forall|st: Style| all_styles().contains(st) ==> style_name(st) != lower_text(s@))
                    && msg@ == unsupported_style_message(s@),
            },
    {
        Style::from_name(s)
    }
}

} // verus!
