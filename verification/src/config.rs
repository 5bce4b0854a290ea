//! The layout settings of each style, and the formatter's keyword casing.

use vstd::prelude::*;
use crate::chars::{chars_of, lower_text, push_str, string_of, to_lower, to_upper, upper_text};
use crate::lexical::copy_range;
use crate::tree::SyntaxNode;
use crate::style::Style;

verus! {

/// Configuration derived from a style.
#[derive(Debug, Clone)]
pub struct StyleConfig {
    /// Keyword casing: true = UPPER, false = lower.
    pub upper_keywords: bool,
    /// Indentation string for left-aligned styles.
    pub indent: &'static str,
    /// Use leading commas instead of trailing.
    pub leading_commas: bool,
    /// JOINs participate in river alignment (AWeber, mattmc3).
    pub joins_in_river: bool,
    /// Always use explicit INNER JOIN (never plain JOIN).
    pub explicit_inner_join: bool,
    /// Insert blank lines between major clauses.
    pub blank_lines_between_clauses: bool,
    /// Use river (right-aligned keyword) layout.
    pub river: bool,
    /// Compact CTE chaining (Kickstarter: "), name AS (").
    pub compact_ctes: bool,
    /// JOIN ON on same line as JOIN (Kickstarter).
    pub join_on_same_line: bool,
    /// Blank lines inside CTE bodies (GitLab).
    pub blank_lines_in_ctes: bool,
    /// Strip INNER keyword from INNER JOIN (mattmc3: use plain JOIN).
    pub strip_inner_join: bool,
    /// Wrap CASE expressions when ELSE is present (AWeber, mattmc3).
    pub wrap_case_else: bool,
    /// Use the dedicated deparser-layout renderer instead of the standard
    /// statement formatter.
    pub pg_dump: bool,
}

/// The settings of each style.
pub open spec fn config_of(style: Style) -> StyleConfig {
    match style {
        Style::River => StyleConfig {
            upper_keywords: true,
            indent: "    ",
            leading_commas: false,
            joins_in_river: false,
            explicit_inner_join: false,
            blank_lines_between_clauses: false,
            river: true,
            compact_ctes: false,
            join_on_same_line: false,
            blank_lines_in_ctes: false,
            strip_inner_join: false,
            wrap_case_else: false,
            pg_dump: false,
        },
        Style::Mozilla => StyleConfig {
            upper_keywords: true,
            indent: "    ",
            leading_commas: false,
            joins_in_river: false,
            explicit_inner_join: false,
            blank_lines_between_clauses: false,
            river: false,
            compact_ctes: false,
            join_on_same_line: false,
            blank_lines_in_ctes: false,
            strip_inner_join: false,
            wrap_case_else: false,
            pg_dump: false,
        },
        Style::Aweber => StyleConfig {
            upper_keywords: true,
            indent: "    ",
            leading_commas: false,
            joins_in_river: true,
            explicit_inner_join: false,
            blank_lines_between_clauses: false,
            river: true,
            compact_ctes: false,
            join_on_same_line: false,
            blank_lines_in_ctes: false,
            strip_inner_join: false,
            wrap_case_else: true,
            pg_dump: false,
        },
        Style::Dbt => StyleConfig {
            upper_keywords: false,
            indent: "    ",
            leading_commas: false,
            joins_in_river: false,
            explicit_inner_join: true,
            blank_lines_between_clauses: true,
            river: false,
            compact_ctes: false,
            join_on_same_line: false,
            blank_lines_in_ctes: false,
            strip_inner_join: false,
            wrap_case_else: false,
            pg_dump: false,
        },
        Style::Gitlab => StyleConfig {
            upper_keywords: true,
            indent: "  ",
            leading_commas: false,
            joins_in_river: false,
            explicit_inner_join: true,
            blank_lines_between_clauses: false,
            river: false,
            compact_ctes: false,
            join_on_same_line: false,
            blank_lines_in_ctes: true,
            strip_inner_join: false,
            wrap_case_else: false,
            pg_dump: false,
        },
        Style::Kickstarter => StyleConfig {
            upper_keywords: true,
            indent: "  ",
            leading_commas: false,
            joins_in_river: false,
            explicit_inner_join: true,
            blank_lines_between_clauses: false,
            river: false,
            compact_ctes: true,
            join_on_same_line: true,
            blank_lines_in_ctes: false,
            strip_inner_join: false,
            wrap_case_else: false,
            pg_dump: false,
        },
        Style::Mattmc3 => StyleConfig {
            upper_keywords: false,
            indent: "    ",
            leading_commas: true,
            joins_in_river: true,
            explicit_inner_join: false,
            blank_lines_between_clauses: false,
            river: true,
            compact_ctes: false,
            join_on_same_line: false,
            blank_lines_in_ctes: false,
            strip_inner_join: true,
            wrap_case_else: true,
            pg_dump: false,
        },
        Style::PgDump => StyleConfig {
            upper_keywords: true,
            indent: "    ",
            leading_commas: false,
            joins_in_river: false,
            explicit_inner_join: false,
            blank_lines_between_clauses: false,
            river: false,
            compact_ctes: false,
            join_on_same_line: false,
            blank_lines_in_ctes: false,
            strip_inner_join: false,
            wrap_case_else: false,
            pg_dump: true,
        },
    }
}

impl StyleConfig {
    /// The settings of `style`.
    pub fn from_style(style: Style) -> (r: Self)
        ensures
            r == config_of(style),
    {
        match style {
            Style::River => StyleConfig {
                upper_keywords: true,
                indent: "    ",
                leading_commas: false,
                joins_in_river: false,
                explicit_inner_join: false,
                blank_lines_between_clauses: false,
                river: true,
                compact_ctes: false,
                join_on_same_line: false,
                blank_lines_in_ctes: false,
                strip_inner_join: false,
                wrap_case_else: false,
                pg_dump: false,
            },
            Style::Mozilla => StyleConfig {
                upper_keywords: true,
                indent: "    ",
                leading_commas: false,
                joins_in_river: false,
                explicit_inner_join: false,
                blank_lines_between_clauses: false,
                river: false,
                compact_ctes: false,
                join_on_same_line: false,
                blank_lines_in_ctes: false,
                strip_inner_join: false,
                wrap_case_else: false,
                pg_dump: false,
            },
            Style::Aweber => StyleConfig {
                upper_keywords: true,
                indent: "    ",
                leading_commas: false,
                joins_in_river: true,
                explicit_inner_join: false,
                blank_lines_between_clauses: false,
                river: true,
                compact_ctes: false,
                join_on_same_line: false,
                blank_lines_in_ctes: false,
                strip_inner_join: false,
                wrap_case_else: true,
                pg_dump: false,
            },
            Style::Dbt => StyleConfig {
                upper_keywords: false,
                indent: "    ",
                leading_commas: false,
                joins_in_river: false,
                explicit_inner_join: true,
                blank_lines_between_clauses: true,
                river: false,
                compact_ctes: false,
                join_on_same_line: false,
                blank_lines_in_ctes: false,
                strip_inner_join: false,
                wrap_case_else: false,
                pg_dump: false,
            },
            Style::Gitlab => StyleConfig {
                upper_keywords: true,
                indent: "  ",
                leading_commas: false,
                joins_in_river: false,
                explicit_inner_join: true,
                blank_lines_between_clauses: false,
                river: false,
                compact_ctes: false,
                join_on_same_line: false,
                blank_lines_in_ctes: true,
                strip_inner_join: false,
                wrap_case_else: false,
                pg_dump: false,
            },
            Style::Kickstarter => StyleConfig {
                upper_keywords: true,
                indent: "  ",
                leading_commas: false,
                joins_in_river: false,
                explicit_inner_join: true,
                blank_lines_between_clauses: false,
                river: false,
                compact_ctes: true,
                join_on_same_line: true,
                blank_lines_in_ctes: false,
                strip_inner_join: false,
                wrap_case_else: false,
                pg_dump: false,
            },
            Style::Mattmc3 => StyleConfig {
                upper_keywords: false,
                indent: "    ",
                leading_commas: true,
                joins_in_river: true,
                explicit_inner_join: false,
                blank_lines_between_clauses: false,
                river: true,
                compact_ctes: false,
                join_on_same_line: false,
                blank_lines_in_ctes: false,
                strip_inner_join: true,
                wrap_case_else: true,
                pg_dump: false,
            },
            Style::PgDump => StyleConfig {
                upper_keywords: true,
                indent: "    ",
                leading_commas: false,
                joins_in_river: false,
                explicit_inner_join: false,
                blank_lines_between_clauses: false,
                river: false,
                compact_ctes: false,
                join_on_same_line: false,
                blank_lines_in_ctes: false,
                strip_inner_join: false,
                wrap_case_else: false,
                pg_dump: true,
            },
        }
    }
}

/// The core SQL formatter's state: the source text, its style and settings.
pub struct Formatter<'a> {
    pub source: &'a str,
    pub style: Style,
    pub config: StyleConfig,
    /// The characters of `source`, which node offsets index.
    pub chars: Vec<char>,
}

/// The text that `node` spans in `chars`, or nothing where its offsets do
/// not lie in `chars`.
pub open spec fn node_text(chars: Seq<char>, node: SyntaxNode) -> Seq<char> {
    if node.start <= node.end <= chars.len() {
        chars.subrange(node.start as int, node.end as int)
    } else {
        Seq::empty()
    }
}

/// `keyword` in the casing that the settings ask for.
pub open spec fn cased(config: StyleConfig, keyword: Seq<char>) -> Seq<char> {
    if config.upper_keywords {
        upper_text(keyword)
    } else {
        lower_text(keyword)
    }
}

impl<'a> Formatter<'a> {
    /// A formatter for `source` in `style`.
    pub fn new(source: &'a str, style: Style) -> (r: Self)
        ensures
            r.source == source,
            r.style == style,
            r.config == config_of(style),
            r.chars@ == source@,
    {
        Formatter { source, style, config: StyleConfig::from_style(style), chars: chars_of(source) }
    }

    /// The source text of `node`.
    pub fn text(&self, node: &SyntaxNode) -> (r: String)
        ensures
            r@ == node_text(self.chars@, *node),
    {
        if node.start <= node.end && node.end <= self.chars.len() {
            let t = copy_range(&self.chars, node.start, node.end);
            string_of(&t)
        } else {
            String::new()
        }
    }

    /// Apply keyword casing.
    pub fn kw(&self, keyword: &str) -> (r: String)
        ensures
            r@ == cased(self.config, keyword@),
            crate::chars::all_ascii(keyword@) ==> r@ == keyword@.map_values(|c: char|
                if self.config.upper_keywords { crate::chars::ascii_upper(c) } else { crate::chars::ascii_lower(c) }),
    {
        if self.config.upper_keywords {
            to_upper(keyword)
        } else {
            to_lower(keyword)
        }
    }

    /// Format a two-word keyword pair like "GROUP BY" or "ORDER BY".
    pub fn kw_pair(&self, first: &str, second: &str) -> (r: String)
        ensures
            r@ == cased(self.config, first@) + seq![' '] + cased(self.config, second@),
    {
        let mut r = self.kw(first);
        push_str(&mut r, " ");
        let second_kw = self.kw(second);
        push_str(&mut r, second_kw.as_str());
        proof { reveal_strlit(" "); }
        r
    }
}

} // verus!
