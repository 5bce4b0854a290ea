//! Expression-level text helpers: built-in function names, type names,
//! joining multi-line parts, and quote-aware passes over expression text.

use vstd::prelude::*;
use crate::chars::{chars_of, lower_text, string_of, to_lower, is_whitespace, is_whitespace_char,
    is_ascii_alphanumeric, is_ascii_alphanumeric_char};
use crate::config::Formatter;
use crate::lexical::{eq_chars, append_all, lemma_newline_bounds};
use crate::text::{byte_len, byte_len_of, lemma_byte_len_bound, lines, lines_of, char_views,
    contains_char, spaces, push_spaces};

verus! {

/// SQL built-in aggregate and function names that follow keyword casing.
pub open spec fn sql_builtin_function_names() -> Seq<Seq<char>> {
    seq![
        "abs"@,
        "avg"@,
        "array_agg"@,
        "bit_and"@,
        "bit_or"@,
        "bool_and"@,
        "bool_or"@,
        "cardinality"@,
        "cast"@,
        "ceil"@,
        "ceiling"@,
        "char_length"@,
        "character_length"@,
        "coalesce"@,
        "concat"@,
        "concat_ws"@,
        "convert"@,
        "corr"@,
        "count"@,
        "covar_pop"@,
        "covar_samp"@,
        "cume_dist"@,
        "current_date"@,
        "current_time"@,
        "current_timestamp"@,
        "date_part"@,
        "date_trunc"@,
        "dense_rank"@,
        "every"@,
        "exists"@,
        "exp"@,
        "extract"@,
        "first_value"@,
        "floor"@,
        "format"@,
        "generate_series"@,
        "greatest"@,
        "json_agg"@,
        "json_object_agg"@,
        "jsonb_agg"@,
        "jsonb_object_agg"@,
        "lag"@,
        "last_value"@,
        "lead"@,
        "least"@,
        "left"@,
        "length"@,
        "ln"@,
        "localtime"@,
        "localtimestamp"@,
        "log"@,
        "lower"@,
        "lpad"@,
        "ltrim"@,
        "max"@,
        "min"@,
        "mod"@,
        "now"@,
        "nth_value"@,
        "ntile"@,
        "nullif"@,
        "octet_length"@,
        "overlay"@,
        "percent_rank"@,
        "position"@,
        "power"@,
        "rank"@,
        "regexp_matches"@,
        "regexp_replace"@,
        "regexp_split_to_array"@,
        "regexp_split_to_table"@,
        "repeat"@,
        "replace"@,
        "reverse"@,
        "right"@,
        "round"@,
        "row_number"@,
        "rpad"@,
        "rtrim"@,
        "sign"@,
        "split_part"@,
        "sqrt"@,
        "stddev"@,
        "stddev_pop"@,
        "stddev_samp"@,
        "string_agg"@,
        "strpos"@,
        "substr"@,
        "substring"@,
        "sum"@,
        "to_char"@,
        "to_date"@,
        "to_number"@,
        "to_timestamp"@,
        "translate"@,
        "trim"@,
        "trunc"@,
        "unnest"@,
        "upper"@,
        "var_pop"@,
        "var_samp"@,
        "variance"@,
        "width_bucket"@,
        "xmlagg"@
    ]
}

/// The executable list of built-in function names.
fn builtin_function_names() -> (r: Vec<&'static str>)
    ensures
        r@.map_values(|s: &str| s@) == sql_builtin_function_names(),
{
    let r = vec![
        "abs",
        "avg",
        "array_agg",
        "bit_and",
        "bit_or",
        "bool_and",
        "bool_or",
        "cardinality",
        "cast",
        "ceil",
        "ceiling",
        "char_length",
        "character_length",
        "coalesce",
        "concat",
        "concat_ws",
        "convert",
        "corr",
        "count",
        "covar_pop",
        "covar_samp",
        "cume_dist",
        "current_date",
        "current_time",
        "current_timestamp",
        "date_part",
        "date_trunc",
        "dense_rank",
        "every",
        "exists",
        "exp",
        "extract",
        "first_value",
        "floor",
        "format",
        "generate_series",
        "greatest",
        "json_agg",
        "json_object_agg",
        "jsonb_agg",
        "jsonb_object_agg",
        "lag",
        "last_value",
        "lead",
        "least",
        "left",
        "length",
        "ln",
        "localtime",
        "localtimestamp",
        "log",
        "lower",
        "lpad",
        "ltrim",
        "max",
        "min",
        "mod",
        "now",
        "nth_value",
        "ntile",
        "nullif",
        "octet_length",
        "overlay",
        "percent_rank",
        "position",
        "power",
        "rank",
        "regexp_matches",
        "regexp_replace",
        "regexp_split_to_array",
        "regexp_split_to_table",
        "repeat",
        "replace",
        "reverse",
        "right",
        "round",
        "row_number",
        "rpad",
        "rtrim",
        "sign",
        "split_part",
        "sqrt",
        "stddev",
        "stddev_pop",
        "stddev_samp",
        "string_agg",
        "strpos",
        "substr",
        "substring",
        "sum",
        "to_char",
        "to_date",
        "to_number",
        "to_timestamp",
        "translate",
        "trim",
        "trunc",
        "unnest",
        "upper",
        "var_pop",
        "var_samp",
        "variance",
        "width_bucket",
        "xmlagg"
    ];
    assert(r@.map_values(|s: &str| s@) =~= sql_builtin_function_names());
    r
}

/// Whether `name`, lowercased, is a SQL built-in function name.
pub fn is_sql_builtin_function(name: &str) -> (r: bool)
    ensures
        r == sql_builtin_function_names().contains(lower_text(name@)),
{
    let lower = to_lower(name);
    let lc = chars_of(lower.as_str());
    let names = builtin_function_names();
    let ghost list = sql_builtin_function_names();
    let mut k: usize = 0;
    while k < names.len()
        invariant
            k <= names@.len(),
            names@.map_values(|s: &str| s@) == list,
            list == sql_builtin_function_names(),
            lc@ == lower_text(name@),
            forall|x: int| 0 <= x < k ==> #[trigger] list[x] != lc@,
        decreases names.len() - k,
    {
        let cand = chars_of(names[k]);
        assert(list[k as int] == names@[k as int]@);
        if eq_chars(&lc, &cand) {
            assert(list.contains(lc@));
            return true;
        }
        k += 1;
    }
    assert(!list.contains(lc@)) by {
        if list.contains(lc@) {
            let x = choose|x: int| 0 <= x < list.len() && list[x] == lc@;
            assert(list[x] != lc@);
        }
    }
    false
}

/// PostgreSQL internal type names and the standard SQL names they map to.
pub open spec fn pg_type_map() -> Seq<(Seq<char>, Seq<char>)> {
    seq![
        ("bigint"@, "BIGINT"@),
        ("bigserial"@, "BIGSERIAL"@),
        ("bool"@, "BOOLEAN"@),
        ("boolean"@, "BOOLEAN"@),
        ("bytea"@, "BYTEA"@),
        ("char"@, "CHAR"@),
        ("character"@, "CHAR"@),
        ("character varying"@, "VARCHAR"@),
        ("date"@, "DATE"@),
        ("double precision"@, "DOUBLE PRECISION"@),
        ("float4"@, "REAL"@),
        ("float8"@, "DOUBLE PRECISION"@),
        ("int"@, "INTEGER"@),
        ("int2"@, "SMALLINT"@),
        ("int4"@, "INTEGER"@),
        ("int8"@, "BIGINT"@),
        ("integer"@, "INTEGER"@),
        ("interval"@, "INTERVAL"@),
        ("json"@, "JSON"@),
        ("jsonb"@, "JSONB"@),
        ("name"@, "NAME"@),
        ("numeric"@, "NUMERIC"@),
        ("oid"@, "OID"@),
        ("real"@, "REAL"@),
        ("serial"@, "SERIAL"@),
        ("serial4"@, "SERIAL"@),
        ("serial8"@, "BIGSERIAL"@),
        ("smallint"@, "SMALLINT"@),
        ("smallserial"@, "SMALLSERIAL"@),
        ("text"@, "TEXT"@),
        ("time"@, "TIME"@),
        ("timestamp"@, "TIMESTAMP"@),
        ("timestamptz"@, "TIMESTAMP WITH TIME ZONE"@),
        ("timetz"@, "TIME WITH TIME ZONE"@),
        ("trigger"@, "TRIGGER"@),
        ("uuid"@, "UUID"@),
        ("varchar"@, "VARCHAR"@),
        ("xml"@, "XML"@)
    ]
}

fn pg_type_pairs() -> (r: Vec<(&'static str, &'static str)>)
    ensures
        r@.map_values(|p: (&str, &str)| (p.0@, p.1@)) == pg_type_map(),
{
    let r = vec![
        ("bigint", "BIGINT"),
        ("bigserial", "BIGSERIAL"),
        ("bool", "BOOLEAN"),
        ("boolean", "BOOLEAN"),
        ("bytea", "BYTEA"),
        ("char", "CHAR"),
        ("character", "CHAR"),
        ("character varying", "VARCHAR"),
        ("date", "DATE"),
        ("double precision", "DOUBLE PRECISION"),
        ("float4", "REAL"),
        ("float8", "DOUBLE PRECISION"),
        ("int", "INTEGER"),
        ("int2", "SMALLINT"),
        ("int4", "INTEGER"),
        ("int8", "BIGINT"),
        ("integer", "INTEGER"),
        ("interval", "INTERVAL"),
        ("json", "JSON"),
        ("jsonb", "JSONB"),
        ("name", "NAME"),
        ("numeric", "NUMERIC"),
        ("oid", "OID"),
        ("real", "REAL"),
        ("serial", "SERIAL"),
        ("serial4", "SERIAL"),
        ("serial8", "BIGSERIAL"),
        ("smallint", "SMALLINT"),
        ("smallserial", "SMALLSERIAL"),
        ("text", "TEXT"),
        ("time", "TIME"),
        ("timestamp", "TIMESTAMP"),
        ("timestamptz", "TIMESTAMP WITH TIME ZONE"),
        ("timetz", "TIME WITH TIME ZONE"),
        ("trigger", "TRIGGER"),
        ("uuid", "UUID"),
        ("varchar", "VARCHAR"),
        ("xml", "XML")
    ];
    assert(r@.map_values(|p: (&str, &str)| (p.0@, p.1@)) =~= pg_type_map());
    r
}

/// The standard name of the first entry of `map` from `k` on whose
/// internal name is `name`.
pub open spec fn type_lookup_from(map: Seq<(Seq<char>, Seq<char>)>, name: Seq<char>, k: int) -> Option<Seq<char>>
    decreases map.len() - k,
{
    if k < 0 || k >= map.len() {
        None
    } else if map[k].0 == name {
        Some(map[k].1)
    } else {
        type_lookup_from(map, name, k + 1)
    }
}

/// What `map_type_name` gives for `name`.
pub open spec fn mapped_type_name(upper: bool, name: Seq<char>) -> Seq<char> {
    match type_lookup_from(pg_type_map(), name, 0) {
        Some(std_name) => if upper { std_name } else { lower_text(std_name) },
        None => if upper { crate::chars::upper_text(name) } else { lower_text(name) },
    }
}

/// A standard type name in the style's casing.
pub open spec fn styled_type_name(upper: bool, std_name: Seq<char>) -> Seq<char> {
    if upper { std_name } else { lower_text(std_name) }
}

/// Each PostgreSQL internal type name maps to the standard SQL name of the
/// same type: the 64-bit integer names to BIGINT, the 32-bit ones to INTEGER,
/// the 16-bit ones to SMALLINT, the serial names to their serial type, the
/// floating-point names to REAL or DOUBLE PRECISION, the character names to
/// CHAR or VARCHAR, the zoned times to their WITH TIME ZONE form, and every
/// other listed name to its own upper-case spelling.
#[verifier::rlimit(100)]
#[verifier::spinoff_prover]
pub proof fn law_standard_type_names(upper: bool)
    ensures
        mapped_type_name(upper, "bigint"@) == styled_type_name(upper, "BIGINT"@),
        mapped_type_name(upper, "int8"@) == styled_type_name(upper, "BIGINT"@),
        mapped_type_name(upper, "int"@) == styled_type_name(upper, "INTEGER"@),
        mapped_type_name(upper, "int4"@) == styled_type_name(upper, "INTEGER"@),
        mapped_type_name(upper, "integer"@) == styled_type_name(upper, "INTEGER"@),
        mapped_type_name(upper, "int2"@) == styled_type_name(upper, "SMALLINT"@),
        mapped_type_name(upper, "smallint"@) == styled_type_name(upper, "SMALLINT"@),
        mapped_type_name(upper, "bigserial"@) == styled_type_name(upper, "BIGSERIAL"@),
        mapped_type_name(upper, "serial8"@) == styled_type_name(upper, "BIGSERIAL"@),
        mapped_type_name(upper, "serial"@) == styled_type_name(upper, "SERIAL"@),
        mapped_type_name(upper, "serial4"@) == styled_type_name(upper, "SERIAL"@),
        mapped_type_name(upper, "smallserial"@) == styled_type_name(upper, "SMALLSERIAL"@),
        mapped_type_name(upper, "bool"@) == styled_type_name(upper, "BOOLEAN"@),
        mapped_type_name(upper, "boolean"@) == styled_type_name(upper, "BOOLEAN"@),
        mapped_type_name(upper, "float4"@) == styled_type_name(upper, "REAL"@),
        mapped_type_name(upper, "real"@) == styled_type_name(upper, "REAL"@),
        mapped_type_name(upper, "float8"@) == styled_type_name(upper, "DOUBLE PRECISION"@),
        mapped_type_name(upper, "double precision"@) == styled_type_name(upper, "DOUBLE PRECISION"@),
        mapped_type_name(upper, "char"@) == styled_type_name(upper, "CHAR"@),
        mapped_type_name(upper, "character"@) == styled_type_name(upper, "CHAR"@),
        mapped_type_name(upper, "varchar"@) == styled_type_name(upper, "VARCHAR"@),
        mapped_type_name(upper, "character varying"@) == styled_type_name(upper, "VARCHAR"@),
        mapped_type_name(upper, "timestamptz"@) == styled_type_name(upper, "TIMESTAMP WITH TIME ZONE"@),
        mapped_type_name(upper, "timetz"@) == styled_type_name(upper, "TIME WITH TIME ZONE"@),
        mapped_type_name(upper, "timestamp"@) == styled_type_name(upper, "TIMESTAMP"@),
        mapped_type_name(upper, "time"@) == styled_type_name(upper, "TIME"@),
        mapped_type_name(upper, "date"@) == styled_type_name(upper, "DATE"@),
        mapped_type_name(upper, "interval"@) == styled_type_name(upper, "INTERVAL"@),
        mapped_type_name(upper, "numeric"@) == styled_type_name(upper, "NUMERIC"@),
        mapped_type_name(upper, "text"@) == styled_type_name(upper, "TEXT"@),
        mapped_type_name(upper, "bytea"@) == styled_type_name(upper, "BYTEA"@),
        mapped_type_name(upper, "json"@) == styled_type_name(upper, "JSON"@),
        mapped_type_name(upper, "jsonb"@) == styled_type_name(upper, "JSONB"@),
        mapped_type_name(upper, "uuid"@) == styled_type_name(upper, "UUID"@),
        mapped_type_name(upper, "xml"@) == styled_type_name(upper, "XML"@),
        mapped_type_name(upper, "oid"@) == styled_type_name(upper, "OID"@),
        mapped_type_name(upper, "name"@) == styled_type_name(upper, "NAME"@),
        mapped_type_name(upper, "trigger"@) == styled_type_name(upper, "TRIGGER"@),
{
    reveal_strlit("bigint");
    reveal_strlit("BIGINT");
    reveal_strlit("int8");
    reveal_strlit("int");
    reveal_strlit("INTEGER");
    reveal_strlit("int4");
    reveal_strlit("integer");
    reveal_strlit("int2");
    reveal_strlit("SMALLINT");
    reveal_strlit("smallint");
    reveal_strlit("bigserial");
    reveal_strlit("BIGSERIAL");
    reveal_strlit("serial8");
    reveal_strlit("serial");
    reveal_strlit("SERIAL");
    reveal_strlit("serial4");
    reveal_strlit("smallserial");
    reveal_strlit("SMALLSERIAL");
    reveal_strlit("bool");
    reveal_strlit("BOOLEAN");
    reveal_strlit("boolean");
    reveal_strlit("float4");
    reveal_strlit("REAL");
    reveal_strlit("real");
    reveal_strlit("float8");
    reveal_strlit("DOUBLE PRECISION");
    reveal_strlit("double precision");
    reveal_strlit("char");
    reveal_strlit("CHAR");
    reveal_strlit("character");
    reveal_strlit("varchar");
    reveal_strlit("VARCHAR");
    reveal_strlit("character varying");
    reveal_strlit("timestamptz");
    reveal_strlit("TIMESTAMP WITH TIME ZONE");
    reveal_strlit("timetz");
    reveal_strlit("TIME WITH TIME ZONE");
    reveal_strlit("timestamp");
    reveal_strlit("TIMESTAMP");
    reveal_strlit("time");
    reveal_strlit("TIME");
    reveal_strlit("date");
    reveal_strlit("DATE");
    reveal_strlit("interval");
    reveal_strlit("INTERVAL");
    reveal_strlit("numeric");
    reveal_strlit("NUMERIC");
    reveal_strlit("text");
    reveal_strlit("TEXT");
    reveal_strlit("bytea");
    reveal_strlit("BYTEA");
    reveal_strlit("json");
    reveal_strlit("JSON");
    reveal_strlit("jsonb");
    reveal_strlit("JSONB");
    reveal_strlit("uuid");
    reveal_strlit("UUID");
    reveal_strlit("xml");
    reveal_strlit("XML");
    reveal_strlit("oid");
    reveal_strlit("OID");
    reveal_strlit("name");
    reveal_strlit("NAME");
    reveal_strlit("trigger");
    reveal_strlit("TRIGGER");
    let m = pg_type_map();
    assert(m[0] == ("bigint"@, "BIGINT"@));
    assert(m[1] == ("bigserial"@, "BIGSERIAL"@));
    assert(m[2] == ("bool"@, "BOOLEAN"@));
    assert(m[3] == ("boolean"@, "BOOLEAN"@));
    assert(m[4] == ("bytea"@, "BYTEA"@));
    assert(m[5] == ("char"@, "CHAR"@));
    assert(m[6] == ("character"@, "CHAR"@));
    assert(m[7] == ("character varying"@, "VARCHAR"@));
    assert(m[8] == ("date"@, "DATE"@));
    assert(m[9] == ("double precision"@, "DOUBLE PRECISION"@));
    assert(m[10] == ("float4"@, "REAL"@));
    assert(m[11] == ("float8"@, "DOUBLE PRECISION"@));
    assert(m[12] == ("int"@, "INTEGER"@));
    assert(m[13] == ("int2"@, "SMALLINT"@));
    assert(m[14] == ("int4"@, "INTEGER"@));
    assert(m[15] == ("int8"@, "BIGINT"@));
    assert(m[16] == ("integer"@, "INTEGER"@));
    assert(m[17] == ("interval"@, "INTERVAL"@));
    assert(m[18] == ("json"@, "JSON"@));
    assert(m[19] == ("jsonb"@, "JSONB"@));
    assert(m[20] == ("name"@, "NAME"@));
    assert(m[21] == ("numeric"@, "NUMERIC"@));
    assert(m[22] == ("oid"@, "OID"@));
    assert(m[23] == ("real"@, "REAL"@));
    assert(m[24] == ("serial"@, "SERIAL"@));
    assert(m[25] == ("serial4"@, "SERIAL"@));
    assert(m[26] == ("serial8"@, "BIGSERIAL"@));
    assert(m[27] == ("smallint"@, "SMALLINT"@));
    assert(m[28] == ("smallserial"@, "SMALLSERIAL"@));
    assert(m[29] == ("text"@, "TEXT"@));
    assert(m[30] == ("time"@, "TIME"@));
    assert(m[31] == ("timestamp"@, "TIMESTAMP"@));
    assert(m[32] == ("timestamptz"@, "TIMESTAMP WITH TIME ZONE"@));
    assert(m[33] == ("timetz"@, "TIME WITH TIME ZONE"@));
    assert(m[34] == ("trigger"@, "TRIGGER"@));
    assert(m[35] == ("uuid"@, "UUID"@));
    assert(m[36] == ("varchar"@, "VARCHAR"@));
    assert(m[37] == ("xml"@, "XML"@));
    assert("bigint"@.len() == 6);
    assert("bigserial"@.len() == 9);
    assert("bool"@.len() == 4);
    assert("boolean"@.len() == 7);
    assert("bytea"@.len() == 5);
    assert("char"@.len() == 4);
    assert("character"@.len() == 9);
    assert("character varying"@.len() == 17);
    assert("date"@.len() == 4);
    assert("double precision"@.len() == 16);
    assert("float4"@.len() == 6);
    assert("float8"@.len() == 6);
    assert("int"@.len() == 3);
    assert("int2"@.len() == 4);
    assert("int4"@.len() == 4);
    assert("int8"@.len() == 4);
    assert("integer"@.len() == 7);
    assert("interval"@.len() == 8);
    assert("json"@.len() == 4);
    assert("jsonb"@.len() == 5);
    assert("name"@.len() == 4);
    assert("numeric"@.len() == 7);
    assert("oid"@.len() == 3);
    assert("real"@.len() == 4);
    assert("serial"@.len() == 6);
    assert("serial4"@.len() == 7);
    assert("serial8"@.len() == 7);
    assert("smallint"@.len() == 8);
    assert("smallserial"@.len() == 11);
    assert("text"@.len() == 4);
    assert("time"@.len() == 4);
    assert("timestamp"@.len() == 9);
    assert("timestamptz"@.len() == 11);
    assert("timetz"@.len() == 6);
    assert("trigger"@.len() == 7);
    assert("uuid"@.len() == 4);
    assert("varchar"@.len() == 7);
    assert("xml"@.len() == 3);
    assert(mapped_type_name(upper, "bigint"@) == styled_type_name(upper, "BIGINT"@)) by {
        reveal_with_fuel(type_lookup_from, 2);
    }
    assert(mapped_type_name(upper, "int8"@) == styled_type_name(upper, "BIGINT"@)) by {
        assert("bool"@[0] != "int8"@[0]);
        assert("char"@[0] != "int8"@[0]);
        assert("date"@[0] != "int8"@[0]);
        assert("int2"@[3] != "int8"@[3]);
        assert("int4"@[3] != "int8"@[3]);
        reveal_with_fuel(type_lookup_from, 17);
    }
    assert(mapped_type_name(upper, "int"@) == styled_type_name(upper, "INTEGER"@)) by {
        reveal_with_fuel(type_lookup_from, 14);
    }
    assert(mapped_type_name(upper, "int4"@) == styled_type_name(upper, "INTEGER"@)) by {
        assert("bool"@[0] != "int4"@[0]);
        assert("char"@[0] != "int4"@[0]);
        assert("date"@[0] != "int4"@[0]);
        assert("int2"@[3] != "int4"@[3]);
        reveal_with_fuel(type_lookup_from, 16);
    }
    assert(mapped_type_name(upper, "integer"@) == styled_type_name(upper, "INTEGER"@)) by {
        assert("boolean"@[0] != "integer"@[0]);
        reveal_with_fuel(type_lookup_from, 18);
    }
    assert(mapped_type_name(upper, "int2"@) == styled_type_name(upper, "SMALLINT"@)) by {
        assert("bool"@[0] != "int2"@[0]);
        assert("char"@[0] != "int2"@[0]);
        assert("date"@[0] != "int2"@[0]);
        reveal_with_fuel(type_lookup_from, 15);
    }
    assert(mapped_type_name(upper, "smallint"@) == styled_type_name(upper, "SMALLINT"@)) by {
        assert("interval"@[0] != "smallint"@[0]);
        reveal_with_fuel(type_lookup_from, 29);
    }
    assert(mapped_type_name(upper, "bigserial"@) == styled_type_name(upper, "BIGSERIAL"@)) by {
        reveal_with_fuel(type_lookup_from, 3);
    }
    assert(mapped_type_name(upper, "serial8"@) == styled_type_name(upper, "BIGSERIAL"@)) by {
        assert("boolean"@[0] != "serial8"@[0]);
        assert("integer"@[0] != "serial8"@[0]);
        assert("numeric"@[0] != "serial8"@[0]);
        assert("serial4"@[6] != "serial8"@[6]);
        reveal_with_fuel(type_lookup_from, 28);
    }
    assert(mapped_type_name(upper, "serial"@) == styled_type_name(upper, "SERIAL"@)) by {
        assert("bigint"@[0] != "serial"@[0]);
        assert("float4"@[0] != "serial"@[0]);
        assert("float8"@[0] != "serial"@[0]);
        reveal_with_fuel(type_lookup_from, 26);
    }
    assert(mapped_type_name(upper, "serial4"@) == styled_type_name(upper, "SERIAL"@)) by {
        assert("boolean"@[0] != "serial4"@[0]);
        assert("integer"@[0] != "serial4"@[0]);
        assert("numeric"@[0] != "serial4"@[0]);
        reveal_with_fuel(type_lookup_from, 27);
    }
    assert(mapped_type_name(upper, "smallserial"@) == styled_type_name(upper, "SMALLSERIAL"@)) by {
        reveal_with_fuel(type_lookup_from, 30);
    }
    assert(mapped_type_name(upper, "bool"@) == styled_type_name(upper, "BOOLEAN"@)) by {
        reveal_with_fuel(type_lookup_from, 4);
    }
    assert(mapped_type_name(upper, "boolean"@) == styled_type_name(upper, "BOOLEAN"@)) by {
        reveal_with_fuel(type_lookup_from, 5);
    }
    assert(mapped_type_name(upper, "float4"@) == styled_type_name(upper, "REAL"@)) by {
        assert("bigint"@[0] != "float4"@[0]);
        reveal_with_fuel(type_lookup_from, 12);
    }
    assert(mapped_type_name(upper, "real"@) == styled_type_name(upper, "REAL"@)) by {
        assert("bool"@[0] != "real"@[0]);
        assert("char"@[0] != "real"@[0]);
        assert("date"@[0] != "real"@[0]);
        assert("int2"@[0] != "real"@[0]);
        assert("int4"@[0] != "real"@[0]);
        assert("int8"@[0] != "real"@[0]);
        assert("json"@[0] != "real"@[0]);
        assert("name"@[0] != "real"@[0]);
        reveal_with_fuel(type_lookup_from, 25);
    }
    assert(mapped_type_name(upper, "float8"@) == styled_type_name(upper, "DOUBLE PRECISION"@)) by {
        assert("bigint"@[0] != "float8"@[0]);
        assert("float4"@[5] != "float8"@[5]);
        reveal_with_fuel(type_lookup_from, 13);
    }
    assert(mapped_type_name(upper, "double precision"@) == styled_type_name(upper, "DOUBLE PRECISION"@)) by {
        reveal_with_fuel(type_lookup_from, 11);
    }
    assert(mapped_type_name(upper, "char"@) == styled_type_name(upper, "CHAR"@)) by {
        assert("bool"@[0] != "char"@[0]);
        reveal_with_fuel(type_lookup_from, 7);
    }
    assert(mapped_type_name(upper, "character"@) == styled_type_name(upper, "CHAR"@)) by {
        assert("bigserial"@[0] != "character"@[0]);
        reveal_with_fuel(type_lookup_from, 8);
    }
    assert(mapped_type_name(upper, "varchar"@) == styled_type_name(upper, "VARCHAR"@)) by {
        assert("boolean"@[0] != "varchar"@[0]);
        assert("integer"@[0] != "varchar"@[0]);
        assert("numeric"@[0] != "varchar"@[0]);
        assert("serial4"@[0] != "varchar"@[0]);
        assert("serial8"@[0] != "varchar"@[0]);
        assert("trigger"@[0] != "varchar"@[0]);
        reveal_with_fuel(type_lookup_from, 38);
    }
    assert(mapped_type_name(upper, "character varying"@) == styled_type_name(upper, "VARCHAR"@)) by {
        reveal_with_fuel(type_lookup_from, 9);
    }
    assert(mapped_type_name(upper, "timestamptz"@) == styled_type_name(upper, "TIMESTAMP WITH TIME ZONE"@)) by {
        assert("smallserial"@[0] != "timestamptz"@[0]);
        reveal_with_fuel(type_lookup_from, 34);
    }
    assert(mapped_type_name(upper, "timetz"@) == styled_type_name(upper, "TIME WITH TIME ZONE"@)) by {
        assert("bigint"@[0] != "timetz"@[0]);
        assert("float4"@[0] != "timetz"@[0]);
        assert("float8"@[0] != "timetz"@[0]);
        assert("serial"@[0] != "timetz"@[0]);
        reveal_with_fuel(type_lookup_from, 35);
    }
    assert(mapped_type_name(upper, "timestamp"@) == styled_type_name(upper, "TIMESTAMP"@)) by {
        assert("bigserial"@[0] != "timestamp"@[0]);
        assert("character"@[0] != "timestamp"@[0]);
        reveal_with_fuel(type_lookup_from, 33);
    }
    assert(mapped_type_name(upper, "time"@) == styled_type_name(upper, "TIME"@)) by {
        assert("bool"@[0] != "time"@[0]);
        assert("char"@[0] != "time"@[0]);
        assert("date"@[0] != "time"@[0]);
        assert("int2"@[0] != "time"@[0]);
        assert("int4"@[0] != "time"@[0]);
        assert("int8"@[0] != "time"@[0]);
        assert("json"@[0] != "time"@[0]);
        assert("name"@[0] != "time"@[0]);
        assert("real"@[0] != "time"@[0]);
        assert("text"@[1] != "time"@[1]);
        reveal_with_fuel(type_lookup_from, 32);
    }
    assert(mapped_type_name(upper, "date"@) == styled_type_name(upper, "DATE"@)) by {
        assert("bool"@[0] != "date"@[0]);
        assert("char"@[0] != "date"@[0]);
        reveal_with_fuel(type_lookup_from, 10);
    }
    assert(mapped_type_name(upper, "interval"@) == styled_type_name(upper, "INTERVAL"@)) by {
        reveal_with_fuel(type_lookup_from, 19);
    }
    assert(mapped_type_name(upper, "numeric"@) == styled_type_name(upper, "NUMERIC"@)) by {
        assert("boolean"@[0] != "numeric"@[0]);
        assert("integer"@[0] != "numeric"@[0]);
        reveal_with_fuel(type_lookup_from, 23);
    }
    assert(mapped_type_name(upper, "text"@) == styled_type_name(upper, "TEXT"@)) by {
        assert("bool"@[0] != "text"@[0]);
        assert("char"@[0] != "text"@[0]);
        assert("date"@[0] != "text"@[0]);
        assert("int2"@[0] != "text"@[0]);
        assert("int4"@[0] != "text"@[0]);
        assert("int8"@[0] != "text"@[0]);
        assert("json"@[0] != "text"@[0]);
        assert("name"@[0] != "text"@[0]);
        assert("real"@[0] != "text"@[0]);
        reveal_with_fuel(type_lookup_from, 31);
    }
    assert(mapped_type_name(upper, "bytea"@) == styled_type_name(upper, "BYTEA"@)) by {
        reveal_with_fuel(type_lookup_from, 6);
    }
    assert(mapped_type_name(upper, "json"@) == styled_type_name(upper, "JSON"@)) by {
        assert("bool"@[0] != "json"@[0]);
        assert("char"@[0] != "json"@[0]);
        assert("date"@[0] != "json"@[0]);
        assert("int2"@[0] != "json"@[0]);
        assert("int4"@[0] != "json"@[0]);
        assert("int8"@[0] != "json"@[0]);
        reveal_with_fuel(type_lookup_from, 20);
    }
    assert(mapped_type_name(upper, "jsonb"@) == styled_type_name(upper, "JSONB"@)) by {
        assert("bytea"@[0] != "jsonb"@[0]);
        reveal_with_fuel(type_lookup_from, 21);
    }
    assert(mapped_type_name(upper, "uuid"@) == styled_type_name(upper, "UUID"@)) by {
        assert("bool"@[0] != "uuid"@[0]);
        assert("char"@[0] != "uuid"@[0]);
        assert("date"@[0] != "uuid"@[0]);
        assert("int2"@[0] != "uuid"@[0]);
        assert("int4"@[0] != "uuid"@[0]);
        assert("int8"@[0] != "uuid"@[0]);
        assert("json"@[0] != "uuid"@[0]);
        assert("name"@[0] != "uuid"@[0]);
        assert("real"@[0] != "uuid"@[0]);
        assert("text"@[0] != "uuid"@[0]);
        assert("time"@[0] != "uuid"@[0]);
        reveal_with_fuel(type_lookup_from, 37);
    }
    assert(mapped_type_name(upper, "xml"@) == styled_type_name(upper, "XML"@)) by {
        assert("int"@[0] != "xml"@[0]);
        assert("oid"@[0] != "xml"@[0]);
        reveal_with_fuel(type_lookup_from, 39);
    }
    assert(mapped_type_name(upper, "oid"@) == styled_type_name(upper, "OID"@)) by {
        assert("int"@[0] != "oid"@[0]);
        reveal_with_fuel(type_lookup_from, 24);
    }
    assert(mapped_type_name(upper, "name"@) == styled_type_name(upper, "NAME"@)) by {
        assert("bool"@[0] != "name"@[0]);
        assert("char"@[0] != "name"@[0]);
        assert("date"@[0] != "name"@[0]);
        assert("int2"@[0] != "name"@[0]);
        assert("int4"@[0] != "name"@[0]);
        assert("int8"@[0] != "name"@[0]);
        assert("json"@[0] != "name"@[0]);
        reveal_with_fuel(type_lookup_from, 22);
    }
    assert(mapped_type_name(upper, "trigger"@) == styled_type_name(upper, "TRIGGER"@)) by {
        assert("boolean"@[0] != "trigger"@[0]);
        assert("integer"@[0] != "trigger"@[0]);
        assert("numeric"@[0] != "trigger"@[0]);
        assert("serial4"@[0] != "trigger"@[0]);
        assert("serial8"@[0] != "trigger"@[0]);
        reveal_with_fuel(type_lookup_from, 36);
    }
}

impl<'a> Formatter<'a> {
    /// Map a PostgreSQL type name to its standard SQL name, in the style's casing.
    pub fn map_type_name(&self, name: &str) -> (r: String)
        ensures
            r@ == mapped_type_name(self.config.upper_keywords, name@),
    {
        let pairs = pg_type_pairs();
        let ghost map = pg_type_map();
        let nc = chars_of(name);
        let mut k: usize = 0;
        while k < pairs.len()
            invariant
                k <= pairs@.len(),
                pairs@.map_values(|p: (&str, &str)| (p.0@, p.1@)) == map,
                map == pg_type_map(),
                nc@ == name@,
                type_lookup_from(map, name@, k as int) == type_lookup_from(map, name@, 0),
            decreases pairs.len() - k,
        {
            let (pg_name, std_name) = pairs[k];
            assert(map[k as int] == (pg_name@, std_name@));
            let pc = chars_of(pg_name);
            if eq_chars(&pc, &nc) {
                return if self.config.upper_keywords {
                    crate::chars::string_from(std_name)
                } else {
                    to_lower(std_name)
                };
            }
            k += 1;
        }
        self.kw(name)
    }
}

/// The texts of a list of strings.
pub open spec fn string_views(v: Seq<String>) -> Seq<Seq<char>> {
    v.map_values(|x: String| x@)
}

/// `parts` joined with `sep` between consecutive parts.
pub open spec fn join_with(parts: Seq<Seq<char>>, sep: Seq<char>) -> Seq<char>
    decreases parts.len(),
{
    if parts.len() == 0 {
        Seq::empty()
    } else if parts.len() == 1 {
        parts[0]
    } else {
        join_with(parts.drop_last(), sep) + sep + parts.last()
    }
}

/// Total number of characters in `parts`.
pub open spec fn total_chars(parts: Seq<Seq<char>>) -> nat
    decreases parts.len(),
{
    if parts.len() == 0 {
        0
    } else {
        total_chars(parts.drop_last()) + parts.last().len()
    }
}

/// Lines `k..` of `ls`, each after a newline and `indent`.
pub open spec fn continuation_lines(ls: Seq<Seq<char>>, k: int, indent: Seq<char>) -> Seq<char>
    decreases ls.len() - k,
{
    if k < 0 || k >= ls.len() {
        Seq::empty()
    } else {
        seq!['\n'] + indent + ls[k] + continuation_lines(ls, k + 1, indent)
    }
}

/// The multi-line join of `parts` from `i` on, at column `col` after `out`.
pub open spec fn indent_join_from(parts: Seq<Seq<char>>, i: int, col: nat, out: Seq<char>) -> Seq<char>
    decreases parts.len() - i,
{
    if i < 0 || i >= parts.len() {
        out
    } else {
        let out1 = if i > 0 { out.push(' ') } else { out };
        let col1: nat = if i > 0 { col + 1 } else { col };
        let p = parts[i];
        if p.contains('\n') {
            let ls = lines_of(p);
            if ls.len() > 0 {
                indent_join_from(parts, i + 1, col1 + byte_len(ls.last()),
                    out1 + ls[0] + continuation_lines(ls, 1, spaces(col1)))
            } else {
                indent_join_from(parts, i + 1, col1, out1)
            }
        } else {
            indent_join_from(parts, i + 1, col1 + byte_len(p), out1 + p)
        }
    }
}

/// `parts` joined with spaces, continuation lines of a multi-line part
/// indented to the column where that part starts.
pub open spec fn joined_with_indent(parts: Seq<Seq<char>>) -> Seq<char> {
    if parts.len() == 0 {
        Seq::empty()
    } else if !(exists|k: int| 0 <= k < parts.len() && parts[k].contains('\n')) {
        join_with(parts, seq![' '])
    } else {
        indent_join_from(parts, 0, 0, Seq::empty())
    }
}

pub proof fn lemma_total_chars_prefix(parts: Seq<Seq<char>>, i: int)
    requires
        0 <= i < parts.len(),
    ensures
        total_chars(parts.take(i + 1)) == total_chars(parts.take(i)) + parts[i].len(),
        total_chars(parts.take(i + 1)) <= total_chars(parts),
    decreases parts.len() - i,
{
    assert(parts.take(i + 1).drop_last() =~= parts.take(i));
    if i + 1 < parts.len() {
        lemma_total_chars_prefix(parts, i + 1);
    } else {
        assert(parts.take(i + 1) =~= parts);
    }
}

pub proof fn lemma_first_line_short(s: Seq<char>)
    ensures
        lines_of(s).len() > 0 ==> lines_of(s)[0].len() <= s.len(),
{
    if s.len() > 0 {
        lemma_newline_bounds(s, 0);
    }
}

/// Append `s` to `out`.
pub fn append_string(out: &mut Vec<char>, s: &String)
    ensures
        final(out)@ == old(out)@ + s@,
{
    let c = chars_of(s.as_str());
    append_all(out, &c);
}

impl<'a> Formatter<'a> {
    /// Join parts with spaces, properly indenting multi-line parts: when a
    /// part contains newlines, its continuation lines are indented to align
    /// with where that part starts in the joined output, and the parts after
    /// it go on from the end of its last line.
    pub fn join_with_multiline_indent(parts: &[String]) -> (r: String)
        requires
            total_chars(string_views(parts@)) + parts@.len() <= usize::MAX / 8,
        ensures
            r@ == joined_with_indent(string_views(parts@)),
    {
        let ghost ps = string_views(parts@);
        let n = parts.len();
        if n == 0 {
            return String::new();
        }
        // Fast path: no multi-line parts.
        let mut any = false;
        let mut k: usize = 0;
        while k < n
            invariant
                k <= n,
                n == parts@.len(),
                ps == string_views(parts@),
                any == (exists|x: int| 0 <= x < k && ps[x].contains('\n')),
            decreases n - k,
        {
            let c = chars_of(parts[k].as_str());
            assert(c@ == ps[k as int]);
            if contains_char(&c, '\n') {
                any = true;
            }
            assert(any == (exists|x: int| 0 <= x < k + 1 && ps[x].contains('\n'))) by {
                if ps[k as int].contains('\n') {
                    assert(0 <= k < k + 1);
                }
                if exists|x: int| 0 <= x < k + 1 && ps[x].contains('\n') {
                    let x = choose|x: int| 0 <= x < k + 1 && ps[x].contains('\n');
                    if x < k {
                        assert(exists|x: int| 0 <= x < k && ps[x].contains('\n'));
                    }
                }
            }
            k += 1;
        }
        let mut out: Vec<char> = Vec::new();
        if !any {
            append_string(&mut out, &parts[0]);
            assert(out@ == join_with(ps.take(1), seq![' ']));
            let mut k: usize = 1;
            while k < n
                invariant
                    1 <= k <= n,
                    n == parts@.len(),
                    ps == string_views(parts@),
                    out@ == join_with(ps.take(k as int), seq![' ']),
                decreases n - k,
            {
                out.push(' ');
                append_string(&mut out, &parts[k]);
                assert(ps.take(k + 1).drop_last() =~= ps.take(k as int));
                k += 1;
            }
            assert(ps.take(n as int) =~= ps);
            return crate::chars::string_of(&out);
        }
        let mut col: usize = 0;
        let mut i: usize = 0;
        while i < n
            invariant
                i <= n,
                n == parts@.len(),
                ps == string_views(parts@),
                total_chars(ps) + n <= usize::MAX / 8,
                col <= 4 * total_chars(ps.take(i as int)) + i,
                indent_join_from(ps, i as int, col as nat, out@) == indent_join_from(ps, 0, 0, Seq::empty()),
            decreases n - i,
        {
            proof { lemma_total_chars_prefix(ps, i as int); }
            let ghost out0 = out@;
            let ghost col0 = col;
            if i > 0 {
                out.push(' ');
                col += 1;
            }
            let pc = chars_of(parts[i].as_str());
            assert(pc@ == ps[i as int]);
            if contains_char(&pc, '\n') {
                let indent_col = col;
                let ls = lines(&pc);
                proof { lemma_first_line_short(pc@); }
                if ls.len() > 0 {
                    let ghost out1 = out@;
                    append_all(&mut out, &ls[0]);
                    let ghost lv = char_views(ls@);
                    assert(lv[0] == ls@[0]@);
                    let mut k: usize = 1;
                    while k < ls.len()
                        invariant
                            1 <= k <= ls@.len(),
                            lv == char_views(ls@),
                            out@ + continuation_lines(lv, k as int, spaces(indent_col as nat))
                                == out1 + lv[0] + continuation_lines(lv, 1, spaces(indent_col as nat)),
                        decreases ls.len() - k,
                    {
                        let ghost before = out@;
                        out.push('\n');
                        push_spaces(&mut out, indent_col);
                        append_all(&mut out, &ls[k]);
                        assert(lv[k as int] == ls@[k as int]@);
                        assert(out@ + continuation_lines(lv, k + 1, spaces(indent_col as nat))
                            =~= before + continuation_lines(lv, k as int, spaces(indent_col as nat)));
                        k += 1;
                    }
                    assert(out@ =~= out@ + continuation_lines(lv, k as int, spaces(indent_col as nat)));
                    // The next part goes on after the last line as written.
                    let last = ls.len() - 1;
                    proof {
                        crate::stmt::lemma_lines_short(pc@, 0);
                        assert(lv[last as int] == ls@[last as int]@);
                        lemma_byte_len_bound(ls@[last as int]@);
                    }
                    col = indent_col + byte_len_of(&ls[last]);
                }
            } else {
                append_all(&mut out, &pc);
                proof { lemma_byte_len_bound(pc@); }
                col += byte_len_of(&pc);
            }
            i += 1;
        }
        crate::chars::string_of(&out)
    }
}

// ---------------------------------------------------------------------------
// Quote-aware passes over expression text
// ---------------------------------------------------------------------------

/// What `collapse_double_dots_outside_quotes` writes for `s` from `i` on.
pub open spec fn dots_from(s: Seq<char>, i: int, in_quote: bool, prev_dot: bool, out: Seq<char>) -> Seq<char>
    decreases s.len() - i,
{
    if i < 0 || i >= s.len() {
        out
    } else if in_quote {
        if s[i] == '"' {
            if i + 1 < s.len() && s[i + 1] == '"' {
                dots_from(s, i + 2, true, prev_dot, out.push('"').push('"'))
            } else {
                dots_from(s, i + 1, false, prev_dot, out.push('"'))
            }
        } else {
            dots_from(s, i + 1, true, prev_dot, out.push(s[i]))
        }
    } else if s[i] == '"' {
        dots_from(s, i + 1, true, false, out.push('"'))
    } else if s[i] == '.' {
        dots_from(s, i + 1, false, true, if prev_dot { out } else { out.push('.') })
    } else {
        dots_from(s, i + 1, false, false, out.push(s[i]))
    }
}

/// Collapse consecutive dots (`..` to `.`) outside double-quoted identifiers.
pub fn collapse_double_dots_outside_quotes(s: &str) -> (r: String)
    requires
        s@.len() < usize::MAX,
    ensures
        r@ == dots_from(s@, 0, false, false, Seq::empty()),
{
    let chars = chars_of(s);
    let len = chars.len();
    let mut result: Vec<char> = Vec::new();
    let mut in_quote = false;
    let mut prev_dot = false;
    let mut i: usize = 0;
    while i < len
        invariant
            i <= len,
            len == chars@.len(),
            len < usize::MAX,
            dots_from(chars@, i as int, in_quote, prev_dot, result@) == dots_from(chars@, 0, false, false, Seq::empty()),
        decreases len - i,
    {
        let ch = chars[i];
        if in_quote {
            result.push(ch);
            if ch == '"' {
                if i + 1 < len && chars[i + 1] == '"' {
                    result.push('"');
                    i += 2;
                    continue;
                }
                in_quote = false;
            }
            i += 1;
            continue;
        }
        if ch == '"' {
            in_quote = true;
            prev_dot = false;
            result.push(ch);
        } else if ch == '.' {
            if !prev_dot {
                result.push('.');
            }
            prev_dot = true;
        } else {
            prev_dot = false;
            result.push(ch);
        }
        i += 1;
    }
    crate::chars::string_of(&result)
}

/// Whether an `E`/`e` right before `s[i]` makes the quote there open an escape string.
pub open spec fn opens_escape_string(s: Seq<char>, i: int) -> bool {
    i >= 1 && (s[i - 1] == 'E' || s[i - 1] == 'e')
        && (i < 2 || !(is_ascii_alphanumeric_char(s[i - 2]) || s[i - 2] == '_'))
}

/// Whether `s` from `i` on holds whitespace at nesting depth zero, outside quotes.
pub open spec fn top_level_space_from(
    s: Seq<char>,
    i: int,
    depth: int,
    in_single: bool,
    escape_string: bool,
    in_double: bool,
) -> bool
    decreases s.len() - i,
{
    if i < 0 || i >= s.len() {
        false
    } else if in_single {
        if escape_string && s[i] == '\\' && i + 1 < s.len() {
            top_level_space_from(s, i + 2, depth, in_single, escape_string, in_double)
        } else if s[i] == '\'' {
            if i + 1 < s.len() && s[i + 1] == '\'' {
                top_level_space_from(s, i + 2, depth, in_single, escape_string, in_double)
            } else {
                top_level_space_from(s, i + 1, depth, false, false, in_double)
            }
        } else {
            top_level_space_from(s, i + 1, depth, in_single, escape_string, in_double)
        }
    } else if in_double {
        if s[i] == '"' {
            if i + 1 < s.len() && s[i + 1] == '"' {
                top_level_space_from(s, i + 2, depth, in_single, escape_string, in_double)
            } else {
                top_level_space_from(s, i + 1, depth, in_single, escape_string, false)
            }
        } else {
            top_level_space_from(s, i + 1, depth, in_single, escape_string, in_double)
        }
    } else if s[i] == '\'' {
        top_level_space_from(s, i + 1, depth, true, opens_escape_string(s, i), in_double)
    } else if s[i] == '"' {
        top_level_space_from(s, i + 1, depth, in_single, escape_string, true)
    } else if s[i] == '(' || s[i] == '[' {
        top_level_space_from(s, i + 1, depth + 1, in_single, escape_string, in_double)
    } else if s[i] == ')' || s[i] == ']' {
        top_level_space_from(s, i + 1, depth - 1, in_single, escape_string, in_double)
    } else if is_whitespace_char(s[i]) && depth == 0 {
        true
    } else {
        top_level_space_from(s, i + 1, depth, in_single, escape_string, in_double)
    }
}

/// Whether `s` holds whitespace at the top level (outside any parentheses
/// or brackets and outside quoted strings): a compound operand such as
/// `a + b` rather than a bare identifier, literal or single call.
pub fn has_top_level_space(s: &str) -> (r: bool)
    requires
        s@.len() <= usize::MAX / 8,
    ensures
        r == top_level_space_from(s@, 0, 0, false, false, false),
{
    let chars = chars_of(s);
    let len = chars.len();
    let mut depth: i64 = 0;
    let mut in_single = false;
    let mut escape_string = false;
    let mut in_double = false;
    let mut i: usize = 0;
    while i < len
        invariant
            i <= len + 1,
            len == chars@.len(),
            len <= usize::MAX / 8,
            chars@ == s@,
            -(i as int) <= depth <= i,
            top_level_space_from(chars@, i as int, depth as int, in_single, escape_string, in_double)
                == top_level_space_from(chars@, 0, 0, false, false, false),
        decreases len + 1 - i,
    {
        let ch = chars[i];
        if in_single {
            if escape_string && ch == '\\' && i + 1 < len {
                i += 2;
                continue;
            }
            if ch == '\'' {
                if i + 1 < len && chars[i + 1] == '\'' {
                    i += 2;
                    continue;
                }
                in_single = false;
                escape_string = false;
            }
            i += 1;
            continue;
        }
        if in_double {
            if ch == '"' {
                if i + 1 < len && chars[i + 1] == '"' {
                    i += 2;
                    continue;
                }
                in_double = false;
            }
            i += 1;
            continue;
        }
        if ch == '\'' {
            in_single = true;
            escape_string = i >= 1 && (chars[i - 1] == 'E' || chars[i - 1] == 'e')
                && (i < 2 || !(is_ascii_alphanumeric(chars[i - 2]) || chars[i - 2] == '_'));
        } else if ch == '"' {
            in_double = true;
        } else if ch == '(' || ch == '[' {
            depth += 1;
        } else if ch == ')' || ch == ']' {
            depth -= 1;
        } else if is_whitespace(ch) && depth == 0 {
            assert(top_level_space_from(chars@, i as int, depth as int, in_single, escape_string, in_double));
            return true;
        }
        i += 1;
    }
    false
}

/// First index at or after `j` that holds no ASCII letter, digit or underscore.
pub open spec fn ascii_tag_end_from(s: Seq<char>, j: int) -> int
    decreases s.len() - j,
{
    if 0 <= j < s.len() && (is_ascii_alphanumeric_char(s[j]) || s[j] == '_') {
        ascii_tag_end_from(s, j + 1)
    } else {
        j
    }
}

pub proof fn lemma_ascii_tag_end_bounds(s: Seq<char>, j: int)
    requires
        0 <= j <= s.len(),
    ensures
        j <= ascii_tag_end_from(s, j) <= s.len(),
    decreases s.len() - j,
{
    if j < s.len() && (is_ascii_alphanumeric_char(s[j]) || s[j] == '_') {
        lemma_ascii_tag_end_bounds(s, j + 1);
    }
}

/// Copy a dollar-quoted body from `i` up to and including the closing `tag`:
/// the index after it and the text written.
pub open spec fn dollar_body_from(s: Seq<char>, i: int, tag: Seq<char>, out: Seq<char>) -> (int, Seq<char>)
    decreases s.len() - i,
{
    if i < 0 || i >= s.len() {
        (i, out)
    } else if crate::lexical::occurs_at(s, tag, i) {
        (i + tag.len(), out + tag)
    } else {
        dollar_body_from(s, i + 1, tag, out.push(s[i]))
    }
}

pub proof fn lemma_dollar_body_bounds(s: Seq<char>, i: int, tag: Seq<char>, out: Seq<char>)
    requires
        0 <= i <= s.len(),
    ensures
        i <= dollar_body_from(s, i, tag, out).0 <= s.len(),
    decreases s.len() - i,
{
    if i < s.len() && !crate::lexical::occurs_at(s, tag, i) {
        lemma_dollar_body_bounds(s, i + 1, tag, out.push(s[i]));
    }
}

/// What `collapse_whitespace_outside_quotes` writes for `s` from `i` on.
pub open spec fn ws_quotes_from(
    s: Seq<char>,
    i: int,
    in_single: bool,
    escape_string: bool,
    in_double: bool,
    prev_space: bool,
    out: Seq<char>,
) -> Seq<char>
    decreases s.len() - i,
{
    if i < 0 || i >= s.len() {
        out
    } else if in_single {
        let out1 = out.push(s[i]);
        if escape_string && s[i] == '\\' && i + 1 < s.len() {
            ws_quotes_from(s, i + 2, in_single, escape_string, in_double, prev_space, out1.push(s[i + 1]))
        } else if s[i] == '\'' {
            if i + 1 < s.len() && s[i + 1] == '\'' {
                ws_quotes_from(s, i + 2, in_single, escape_string, in_double, prev_space, out1.push('\''))
            } else {
                ws_quotes_from(s, i + 1, false, false, in_double, prev_space, out1)
            }
        } else {
            ws_quotes_from(s, i + 1, in_single, escape_string, in_double, prev_space, out1)
        }
    } else if in_double {
        let out1 = out.push(s[i]);
        if s[i] == '"' {
            if i + 1 < s.len() && s[i + 1] == '"' {
                ws_quotes_from(s, i + 2, in_single, escape_string, in_double, prev_space, out1.push('"'))
            } else {
                ws_quotes_from(s, i + 1, in_single, escape_string, false, prev_space, out1)
            }
        } else {
            ws_quotes_from(s, i + 1, in_single, escape_string, in_double, prev_space, out1)
        }
    } else if s[i] == '\'' {
        ws_quotes_from(s, i + 1, true, opens_escape_string(s, i), in_double, false, out.push(s[i]))
    } else if s[i] == '"' {
        ws_quotes_from(s, i + 1, in_single, escape_string, true, false, out.push(s[i]))
    } else if s[i] == '$' {
        let te = ascii_tag_end_from(s, i + 1);
        if te < s.len() && s[te] == '$' {
            let tag = s.subrange(i, te + 1);
            proof { lemma_ascii_tag_end_bounds(s, i + 1); lemma_dollar_body_bounds(s, te + 1, tag, out + tag); }
            let body = dollar_body_from(s, te + 1, tag, out + tag);
            ws_quotes_from(s, body.0, in_single, escape_string, in_double, false, body.1)
        } else {
            ws_quotes_from(s, i + 1, in_single, escape_string, in_double, false, out.push('$'))
        }
    } else if is_whitespace_char(s[i]) {
        ws_quotes_from(s, i + 1, in_single, escape_string, in_double, true,
            if prev_space { out } else { out.push(' ') })
    } else {
        ws_quotes_from(s, i + 1, in_single, escape_string, in_double, false, out.push(s[i]))
    }
}

/// Collapse runs of whitespace to single spaces, preserving whitespace inside
/// single-quoted, double-quoted and dollar-quoted strings.
pub fn collapse_whitespace_outside_quotes(s: &str) -> (r: String)
    requires
        s@.len() < usize::MAX,
    ensures
        r@ == ws_quotes_from(s@, 0, false, false, false, false, Seq::empty()),
{
    let chars = chars_of(s);
    let len = chars.len();
    let mut result: Vec<char> = Vec::new();
    let mut in_single_quote = false;
    let mut escape_string = false;
    let mut in_double_quote = false;
    let mut prev_was_space = false;
    let mut i: usize = 0;
    while i < len
        invariant
            i <= len + 1,
            len == chars@.len(),
            len < usize::MAX,
            ws_quotes_from(chars@, i as int, in_single_quote, escape_string, in_double_quote, prev_was_space, result@)
                == ws_quotes_from(chars@, 0, false, false, false, false, Seq::empty()),
        decreases len + 1 - i,
    {
        let ch = chars[i];
        if in_single_quote {
            result.push(ch);
            if escape_string && ch == '\\' && i + 1 < len {
                result.push(chars[i + 1]);
                i += 2;
                continue;
            }
            if ch == '\'' {
                if i + 1 < len && chars[i + 1] == '\'' {
                    result.push('\'');
                    i += 2;
                    continue;
                }
                in_single_quote = false;
                escape_string = false;
            }
            i += 1;
            continue;
        }
        if in_double_quote {
            result.push(ch);
            if ch == '"' {
                if i + 1 < len && chars[i + 1] == '"' {
                    result.push('"');
                    i += 2;
                    continue;
                }
                in_double_quote = false;
            }
            i += 1;
            continue;
        }
        if ch == '\'' {
            in_single_quote = true;
            escape_string = i >= 1 && (chars[i - 1] == 'E' || chars[i - 1] == 'e')
                && (i < 2 || !(is_ascii_alphanumeric(chars[i - 2]) || chars[i - 2] == '_'));
            prev_was_space = false;
            result.push(ch);
        } else if ch == '"' {
            in_double_quote = true;
            prev_was_space = false;
            result.push(ch);
        } else if ch == '$' {
            let mut tag_end = i + 1;
            while tag_end < len && (is_ascii_alphanumeric(chars[tag_end]) || chars[tag_end] == '_')
                invariant
                    i + 1 <= tag_end <= len,
                    len == chars@.len(),
                    ascii_tag_end_from(chars@, tag_end as int) == ascii_tag_end_from(chars@, i + 1),
                decreases len - tag_end,
            {
                tag_end += 1;
            }
            if tag_end < len && chars[tag_end] == '$' {
                let ghost tag = chars@.subrange(i as int, tag_end + 1);
                proof {
                    lemma_ascii_tag_end_bounds(chars@, i + 1);
                }
                let ghost target = dollar_body_from(chars@, tag_end + 1, tag, result@ + tag);
                let n = tag_end + 1 - i;
                crate::lexical::append_range(&mut result, &chars, i, tag_end + 1);
                let mut k = tag_end + 1;
                let mut done = false;
                while !done && k < len
                    invariant
                        tag_end + 1 <= k <= len,
                        i < tag_end < len,
                        n == tag_end + 1 - i,
                        len == chars@.len(),
                        len < usize::MAX,
                        tag == chars@.subrange(i as int, tag_end + 1),
                        done ==> k == target.0 && result@ == target.1,
                        !done ==> dollar_body_from(chars@, k as int, tag, result@) == target,
                    decreases len - k,
                {
                    if k <= len - n && crate::lexical::same_run(&chars, i, k, n) {
                        assert(crate::lexical::occurs_at(chars@, tag, k as int));
                        crate::lexical::append_range(&mut result, &chars, i, tag_end + 1);
                        k += n;
                        done = true;
                    } else {
                        result.push(chars[k]);
                        k += 1;
                    }
                }
                i = k;
                prev_was_space = false;
                continue;
            }
            prev_was_space = false;
            result.push(ch);
        } else if is_whitespace(ch) {
            if !prev_was_space {
                result.push(' ');
                prev_was_space = true;
            }
        } else {
            prev_was_space = false;
            result.push(ch);
        }
        i += 1;
    }
    crate::chars::string_of(&result)
}

} // verus!
