use libpgfmt::config::{Formatter, StyleConfig};
use libpgfmt::error::FormatError;
use libpgfmt::lexical::restore_literals;
use libpgfmt::style::Style;

#[test]
fn style_names_round_trip() {
    for style in Style::all() {
        assert_eq!(Style::from_name(style.name()), Ok(style));
        assert_eq!(style.name().parse::<Style>(), Ok(style));
    }
    assert_eq!(Style::from_name("RiVeR"), Ok(Style::River));
    assert_eq!(Style::from_name("nope"), Err("Unsupported style: 'nope'".to_string()));
    assert_eq!(Style::all().len(), 7);
}

#[test]
fn default_style_is_aweber() {
    assert_eq!(Style::default(), Style::Aweber);
}

#[test]
fn style_configs() {
    let river = StyleConfig::from_style(Style::River);
    assert!(river.river && river.upper_keywords && !river.joins_in_river);
    let dbt = StyleConfig::from_style(Style::Dbt);
    assert!(!dbt.upper_keywords && dbt.blank_lines_between_clauses && dbt.explicit_inner_join);
    assert_eq!(StyleConfig::from_style(Style::Gitlab).indent, "  ");
    assert!(StyleConfig::from_style(Style::Mattmc3).leading_commas);
    assert!(StyleConfig::from_style(Style::PgDump).pg_dump);
}

#[test]
fn keyword_casing() {
    let upper = Formatter::new("", Style::River);
    let lower = Formatter::new("", Style::Dbt);
    assert_eq!(upper.kw("select"), "SELECT");
    assert_eq!(lower.kw("SELECT"), "select");
    assert_eq!(upper.kw_pair("group", "by"), "GROUP BY");
    assert_eq!(lower.kw_pair("ORDER", "BY"), "order by");
}

#[test]
fn blank_input_formats_to_nothing() {
    assert_eq!(libpgfmt::format("  \n\t ", Style::River), Ok(String::new()));
    assert_eq!(libpgfmt::format_plpgsql("   ", Style::River), Ok(String::new()));
}

#[test]
fn statement_gets_terminator() {
    assert_eq!(libpgfmt::format("SELECT 1", Style::River), Ok("SELECT 1;".to_string()));
    assert_eq!(libpgfmt::format("SELECT 1;;", Style::River), Ok("SELECT 1;".to_string()));
}

#[test]
fn quick_start_examples() {
    assert_eq!(
        libpgfmt::format("SELECT id, name FROM users WHERE active = TRUE", Style::River).unwrap(),
        "SELECT id,\n       name\n  FROM users\n WHERE active = TRUE;"
    );
    assert_eq!(
        libpgfmt::format("SELECT id FROM users WHERE active = TRUE", Style::River).unwrap(),
        "SELECT id\n  FROM users\n WHERE active = TRUE;"
    );
    assert_eq!(
        libpgfmt::format("SELECT id FROM users", Style::Dbt).unwrap(),
        "select id\n\nfrom users;"
    );
    assert_eq!(
        libpgfmt::format_plpgsql("BEGIN RETURN 1; END", Style::River).unwrap(),
        "BEGIN\n  RETURN 1;\nEND;"
    );
}

#[test]
fn readme_style_examples() {
    let sql = "SELECT id, name FROM users WHERE active = TRUE ORDER BY name";
    assert_eq!(
        libpgfmt::format(sql, Style::Dbt).unwrap(),
        "select\n    id,\n    name\n\nfrom users\n\nwhere\n    active = true\n\norder by name;"
    );
    let vimrc = "SELECT file_hash FROM file_system WHERE file_name = '.vimrc'";
    assert_eq!(
        libpgfmt::format(vimrc, Style::Mozilla).unwrap(),
        "SELECT file_hash\nFROM file_system\nWHERE\n    file_name = '.vimrc';"
    );
    assert_eq!(
        libpgfmt::format(vimrc, Style::Mattmc3).unwrap(),
        "select file_hash\n  from file_system\n where file_name = '.vimrc';"
    );
}

#[test]
fn junk_between_statements_reports_its_place() {
    assert_eq!(
        libpgfmt::format("SELECT 1; THIS IS NOT SQL @@@;", Style::River),
        Err(FormatError::Syntax("Syntax error at line 1, column 11: \"THIS IS NOT SQL @@@\"".to_string()))
    );
}

#[test]
fn error_messages() {
    assert_eq!(FormatError::Syntax("x".to_string()).message(), "Syntax error: x");
    assert_eq!(FormatError::Parser("y".to_string()).message(), "Parser error: y");
}

#[test]
fn decimal_digits() {
    assert_eq!(libpgfmt::decimal(0), "0");
    assert_eq!(libpgfmt::decimal(7), "7");
    assert_eq!(libpgfmt::decimal(120), "120");
}

#[test]
fn leading_comma_style() {
    assert_eq!(
        libpgfmt::format("SELECT a, b, c FROM t", Style::Mattmc3).unwrap(),
        "select a\n     , b\n     , c\n  from t;"
    );
}

#[test]
fn set_operations() {
    assert_eq!(
        libpgfmt::format("SELECT a FROM t UNION ALL SELECT b FROM u", Style::River).unwrap(),
        "SELECT a\n  FROM t\n\nUNION ALL\n\nSELECT b\n  FROM u;"
    );
}

#[test]
fn comments_between_statements_are_kept() {
    assert_eq!(
        libpgfmt::format("SELECT 1; -- why\nSELECT 2;", Style::River).unwrap(),
        "SELECT 1; -- why\n\nSELECT 2;"
    );
    assert_eq!(
        libpgfmt::format("-- head\nSELECT 1;", Style::River).unwrap(),
        "-- head\n\nSELECT 1;"
    );
}

#[test]
fn unsupported_statement_is_passed_through() {
    for style in Style::all() {
        assert_eq!(
            libpgfmt::format("GRANT   SELECT\n   ON   foo TO bar", style),
            Ok("GRANT SELECT ON foo TO bar;".to_string())
        );
    }
    assert_eq!(
        libpgfmt::format("vacuum   analyze  t;", Style::River),
        Ok("vacuum analyze t;".to_string())
    );
}

#[test]
fn statements_open_with_their_keyword() {
    for style in Style::all() {
        let upper = StyleConfig::from_style(style).upper_keywords;
        let cased = |w: &str| if upper { w.to_uppercase() } else { w.to_lowercase() };
        let table = libpgfmt::format("create table t (a int, b text)", style).unwrap();
        assert!(table.starts_with(&format!("{} ", cased("CREATE"))), "{table}");
        let view = libpgfmt::format("create view v as select a from t", style).unwrap();
        assert!(view.starts_with(&format!("{} ", cased("CREATE"))), "{view}");
        let domain = libpgfmt::format("create domain d as integer check (value > 0)", style).unwrap();
        assert!(domain.starts_with(&format!("{} ", cased("CREATE"))), "{domain}");
        let insert = libpgfmt::format("insert into t (a) values (1)", style).unwrap();
        assert!(insert.starts_with(&format!("{} {} ", cased("INSERT"), cased("INTO"))), "{insert}");
        let update = libpgfmt::format("update t set a = 1 where b = 'x'", style).unwrap();
        assert!(update.trim_start().starts_with(&format!("{} ", cased("UPDATE"))), "{update}");
        let delete = libpgfmt::format("delete from t where a = 1", style).unwrap();
        assert!(delete.trim_start().starts_with(&cased("DELETE")), "{delete}");
        let select = libpgfmt::format("select distinct a, b from t union select c, d from u", style).unwrap();
        assert!(select.trim_start().starts_with(&cased("SELECT")), "{select}");
    }
}

#[test]
fn literals_come_back_only_from_literals() {
    assert_eq!(restore_literals("SELECT 1", "SELECT 'a  b', \"x y\""), "SELECT 'a  b', \"x y\"");
    assert_eq!(restore_literals("SELECT 'a\n  b'", "SELECT 1 FROM t"), "SELECT 1 FROM t");
    assert_eq!(restore_literals("SELECT 'a\n  b'", "SELECT 'a b'"), "SELECT 'a\n  b'");
}

#[test]
fn formatting_twice_changes_nothing() {
    let statements = [
        "SELECT a.id, a.name, COUNT(o.id) AS order_count FROM accounts AS a LEFT JOIN orders AS o ON a.id = o.account_id WHERE a.active = TRUE GROUP BY a.id, a.name",
        "SELECT file_hash FROM file_system WHERE file_name = '.vimrc'",
        "SELECT id, name FROM users WHERE active = TRUE ORDER BY name",
        "INSERT INTO t (a, b) VALUES (1, 'x'), (2, 'y')",
        "UPDATE t SET a = 1, b = 2 WHERE c = 3",
        "DELETE FROM t WHERE a = 1 AND b = 2",
        "CREATE TABLE t (id integer PRIMARY KEY, name text NOT NULL)",
        "GRANT SELECT ON foo TO bar",
    ];
    for style in Style::all() {
        for sql in statements {
            let once = libpgfmt::format(sql, style).unwrap();
            let twice = libpgfmt::format(&once, style).unwrap();
            assert_eq!(once, twice, "{style:?}: {sql}");
        }
    }
}

#[test]
fn reindent_body_of_blank_lines_is_empty() {
    assert_eq!(libpgfmt::stmt::reindent_body("\n  \n", " "), Some(String::new()));
    assert_eq!(libpgfmt::stmt::reindent_body("\n  a\n    b\n\n", "  "), Some("  a\n    b".to_string()));
}

#[test]
fn multiline_parts_continue_under_their_start() {
    let parts = vec!["(a\n b)".to_string(), "+".to_string(), "(c\n d)".to_string()];
    assert_eq!(
        libpgfmt::config::Formatter::join_with_multiline_indent(&parts),
        "(a\n b) + (c\n       d)"
    );
}

#[test]
fn missing_terminator_is_supplied() {
    for style in Style::all() {
        assert_eq!(
            libpgfmt::format("SELECT id FROM users", style),
            libpgfmt::format("SELECT id FROM users;", style)
        );
    }
}

#[test]
fn statements_are_separated_by_blank_lines() {
    assert_eq!(
        libpgfmt::format("SELECT 1; SELECT 2;", Style::River).unwrap(),
        "SELECT 1;\n\nSELECT 2;"
    );
}

#[test]
fn create_table_closes_its_element_list() {
    let out = libpgfmt::format("CREATE TABLE t (a int, b text)", Style::Mozilla).unwrap();
    assert!(out.starts_with("CREATE TABLE t ("), "{out}");
    assert!(out.lines().any(|l| l == ")" || l == ");"), "{out}");
}

#[test]
fn conditions_keep_non_ascii_text() {
    assert_eq!(
        libpgfmt::format("SELECT a FROM t WHERE name = 'café' AND x = 1", Style::River).unwrap(),
        "SELECT a\n  FROM t\n WHERE name = 'café'\n   AND x = 1;"
    );
}

#[test]
fn between_and_is_not_a_condition_split() {
    assert_eq!(
        libpgfmt::format("SELECT a FROM t WHERE a BETWEEN 1 AND 2 AND b = 1", Style::River).unwrap(),
        "SELECT a\n  FROM t\n WHERE a BETWEEN 1 AND 2\n   AND b = 1;"
    );
}
