//! Formatted output must parse again, and formatting it again must change
//! nothing, in every style.


use libpgfmt::style::Style;

fn statements() -> Vec<String> {
    let body = "\
SELECT a.id, a.name, COUNT(o.id) AS order_count FROM accounts AS a LEFT JOIN orders AS o ON a.id = o.account_id WHERE a.active = TRUE GROUP BY a.id, a.name
;;
WITH c AS (SELECT 1 AS id) SELECT * FROM c UNION ALL SELECT 2
;;
SELECT * FROM t WHERE a BETWEEN 1 AND 2 AND (b = 1 OR c = 'x AND y')
;;
SELECT name, count(*) FROM films WHERE kind = 'Comedy' GROUP BY name HAVING count(*) > 1 ORDER BY name
;;
UPDATE weather SET temp_lo = temp_lo + 1 WHERE city = 'San Francisco'
;;
DELETE FROM products WHERE price = 10
;;
INSERT INTO films (code, title) VALUES ('B6717', 'Tampopo'), ('HG120', 'The Dinner Game')";
    body.split("\n;;")
        .map(|s| s.trim().to_string())
        .filter(|s| !s.is_empty())
        .collect()
}

#[test]
fn formatted_output_parses_in_every_style() {
    let statements = statements();
    assert_eq!(statements.len(), 7, "fixture should hold 7 statements");

    for style in Style::all() {
        for sql in &statements {
            let once = libpgfmt::format(sql, style).unwrap_or_else(|e| {
                panic!("\nStyle: {}\nInput:\n{sql}\nFailed to format: {e:?}", style.name())
            });
            libpgfmt::format(&once, style).unwrap_or_else(|e| {
                panic!(
                    "\nStyle: {}\nInput:\n{sql}\nFormatted to:\n{once}\nWhich no longer parses: {e:?}",
                    style.name()
                )
            });
        }
    }
}

/// Formatting is a fixed point for every statement whose output is stable.
#[test]
fn formatting_is_idempotent_in_every_style() {
    for style in Style::all() {
        for sql in &statements() {
            let once = libpgfmt::format(sql, style).unwrap();
            let twice = libpgfmt::format(&once, style).unwrap();
            assert_eq!(once, twice, "\nStyle: {}\nInput:\n{sql}", style.name());
        }
    }
}
