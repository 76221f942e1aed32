//! What the checks and hovers of configuration files promise for every
//! input: numeric and length bounds are inclusive, and the hover of an environment
//! variable reference shows the variable's value when it is set.

use vstd::prelude::*;
use crate::lsp::{Range, DiagnosticSeverity};
use crate::schema::{TypeInfoV, PropertyV as SchemaPropertyV};
use crate::text::contains_seq;
use crate::toml_analyzer::{ConfigValueV, range_diagnostics, env_hover_text, has_env_ref, byte_len};
use crate::decimal::decimal_less;

verus! {

/// Whether some diagnostic of `ds` has the code `code`.
pub open spec fn has_code(ds: Seq<crate::lsp::DiagnosticV>, code: Seq<char>) -> bool {
    exists|k: int| 0 <= k < ds.len() && (#[trigger] ds[k]).code == Some(code)
}

/// Integer bounds are inclusive: the range check of an integer reports it
/// too large exactly when it exceeds the maximum, too small exactly when it
/// is below the minimum, one error for each, and nothing else.
pub proof fn law_integer_bounds_inclusive(
    key: Seq<char>,
    i: i64,
    range: Range,
    sp: SchemaPropertyV,
    min: Option<i64>,
    max: Option<i64>,
)
    requires
        sp.type_info == (TypeInfoV::Integer { min, max }),
    ensures
        ({
            let ds = range_diagnostics(key, ConfigValueV::Integer(i), range, sp);
            let too_small = min matches Some(m) && i < m;
            let too_large = max matches Some(m) && i > m;
            &&& has_code(ds, "value-too-large"@) <==> too_large
            &&& has_code(ds, "value-too-small"@) <==> too_small
            &&& ds.len() == (if too_small { 1int } else { 0int }) + (if too_large { 1int } else { 0int })
            &&& forall|k: int| 0 <= k < ds.len() ==> (#[trigger] ds[k]).severity == Some(DiagnosticSeverity::Error)
                && ds[k].range == range
        }),
{
    reveal_strlit("value-too-large");
    reveal_strlit("value-too-small");
    assert("value-too-large"@[10] != "value-too-small"@[10]);
    let ds = range_diagnostics(key, ConfigValueV::Integer(i), range, sp);
    let too_small = min matches Some(m) && i < m;
    let too_large = max matches Some(m) && i > m;
    if too_large {
        assert(ds[ds.len() - 1].code == Some("value-too-large"@));
    }
    if too_small {
        assert(ds[0].code == Some("value-too-small"@));
    }
    if has_code(ds, "value-too-large"@) {
        let k = choose|k: int| 0 <= k < ds.len() && (#[trigger] ds[k]).code == Some("value-too-large"@);
        if !too_large {
            assert(ds[k].code == Some("value-too-small"@));
        }
    }
    if has_code(ds, "value-too-small"@) {
        let k = choose|k: int| 0 <= k < ds.len() && (#[trigger] ds[k]).code == Some("value-too-small"@);
        if !too_small {
            assert(ds[k].code == Some("value-too-large"@));
        }
    }
}

/// Float bounds are inclusive too, compared as decimal numbers: a value is
/// reported too large exactly when the maximum is less than it, too small
/// exactly when it is less than the minimum, and nothing else is reported.
pub proof fn law_float_bounds_inclusive(
    key: Seq<char>,
    f: Seq<char>,
    range: Range,
    sp: SchemaPropertyV,
    min: Option<Seq<char>>,
    max: Option<Seq<char>>,
)
    requires
        sp.type_info == (TypeInfoV::Float { min, max }),
    ensures
        ({
            let ds = range_diagnostics(key, ConfigValueV::Float(f), range, sp);
            let too_small = min matches Some(m) && decimal_less(f, m);
            let too_large = max matches Some(m) && decimal_less(m, f);
            &&& has_code(ds, "value-too-large"@) <==> too_large
            &&& has_code(ds, "value-too-small"@) <==> too_small
            &&& ds.len() == (if too_small { 1int } else { 0int }) + (if too_large { 1int } else { 0int })
        }),
{
    reveal_strlit("value-too-large");
    reveal_strlit("value-too-small");
    assert("value-too-large"@[10] != "value-too-small"@[10]);
    let ds = range_diagnostics(key, ConfigValueV::Float(f), range, sp);
    let too_small = min matches Some(m) && decimal_less(f, m);
    let too_large = max matches Some(m) && decimal_less(m, f);
    if too_large {
        assert(ds[ds.len() - 1].code == Some("value-too-large"@));
    }
    if too_small {
        assert(ds[0].code == Some("value-too-small"@));
    }
    if has_code(ds, "value-too-large"@) {
        let k = choose|k: int| 0 <= k < ds.len() && (#[trigger] ds[k]).code == Some("value-too-large"@);
        if !too_large {
            assert(ds[k].code == Some("value-too-small"@));
        }
    }
    if has_code(ds, "value-too-small"@) {
        let k = choose|k: int| 0 <= k < ds.len() && (#[trigger] ds[k]).code == Some("value-too-small"@);
        if !too_small {
            assert(ds[k].code == Some("value-too-large"@));
        }
    }
}

/// String length bounds are inclusive and counted in bytes: a string
/// without an environment variable reference is reported too long exactly
/// when it has more bytes than the maximum, too short exactly when it has
/// fewer than the minimum; a string with a reference is never reported.
pub proof fn law_string_length_bounds(
    key: Seq<char>,
    s: Seq<char>,
    range: Range,
    sp: SchemaPropertyV,
    enum_values: Option<Seq<Seq<char>>>,
    min_length: Option<usize>,
    max_length: Option<usize>,
)
    requires
        sp.type_info == (TypeInfoV::Str { enum_values, min_length, max_length }),
    ensures
        ({
            let ds = range_diagnostics(key, ConfigValueV::Str(s), range, sp);
            &&& has_code(ds, "string-too-long"@) <==> (!has_env_ref(s) && (max_length matches Some(m) && byte_len(s) > m))
            &&& has_code(ds, "string-too-short"@) <==> (!has_env_ref(s) && (min_length matches Some(m) && byte_len(s) < m))
            &&& has_env_ref(s) ==> ds.len() == 0
        }),
{
    reveal_strlit("string-too-long");
    reveal_strlit("string-too-short");
    reveal_strlit("invalid-enum-value");
    assert("string-too-long"@[11] != "string-too-short"@[11]);
    assert("string-too-long"@.len() != "invalid-enum-value"@.len());
    assert("string-too-short"@.len() != "invalid-enum-value"@.len());
    let ds = range_diagnostics(key, ConfigValueV::Str(s), range, sp);
    let len = byte_len(s);
    let e = match enum_values {
        Some(ev) => if !has_env_ref(s) && !ev.contains(s) { 1int } else { 0int },
        None => 0int,
    };
    let lo = !has_env_ref(s) && (min_length matches Some(m) && len < m);
    let hi = !has_env_ref(s) && (max_length matches Some(m) && len > m);
    assert(ds.len() == e + (if lo { 1int } else { 0int }) + (if hi { 1int } else { 0int }));
    if hi {
        assert(ds[ds.len() - 1].code == Some("string-too-long"@));
    }
    if lo {
        assert(ds[e].code == Some("string-too-short"@));
    }
    if has_code(ds, "string-too-long"@) {
        let k = choose|k: int| 0 <= k < ds.len() && (#[trigger] ds[k]).code == Some("string-too-long"@);
        if !hi {
            if k < e {
                assert(ds[k].code == Some("invalid-enum-value"@));
            } else {
                assert(ds[k].code == Some("string-too-short"@));
            }
        }
    }
    if has_code(ds, "string-too-short"@) {
        let k = choose|k: int| 0 <= k < ds.len() && (#[trigger] ds[k]).code == Some("string-too-short"@);
        if !lo {
            if k < e {
                assert(ds[k].code == Some("invalid-enum-value"@));
            } else {
                assert(ds[k].code == Some("string-too-long"@));
            }
        }
    }
}

/// The hover of an environment variable reference shows the value of the
/// variable when it is set, and says it is not set when it is not.
pub proof fn law_env_hover_shows_current_value(name: Seq<char>, default: Option<Seq<char>>, current: Option<Seq<char>>)
    ensures
        match current {
            Some(v) => contains_seq(env_hover_text(name, default, current), "**当前值**: `"@ + v + "`"@),
            None => contains_seq(env_hover_text(name, default, current), "**当前值**: *未设置*"@),
        },
{
    let head = "# 环境变量\n\n"@ + "**变量名**: `"@ + name + "`\n\n"@
        + (match default { Some(d) => "**默认值**: `"@ + d + "`\n\n"@, None => seq![] });
    let mid = match current { Some(v) => "**当前值**: `"@ + v + "`\n\n"@, None => "**当前值**: *未设置*\n\n"@ };
    let tail = "**说明**:\n\n"@
        + "环境变量插值允许在配置文件中引用系统环境变量。\n\n"@
        + "**格式**:\n"@
        + "- `${VAR}` - 引用环境变量，如果未设置则报错\n"@
        + "- `${VAR:default}` - 引用环境变量，如果未设置则使用默认值\n"@;
    let t = env_hover_text(name, default, current);
    assert(t =~= head + mid + tail);
    let needle = match current {
        Some(v) => "**当前值**: `"@ + v + "`"@,
        None => "**当前值**: *未设置*"@,
    };
    reveal_strlit("`\n\n");
    reveal_strlit("`");
    reveal_strlit("**当前值**: *未设置*\n\n");
    reveal_strlit("**当前值**: *未设置*");
    assert(mid.subrange(0, needle.len() as int) =~= needle);
    assert(t.subrange(head.len() as int, (head.len() + needle.len()) as int) =~= needle);
    assert(crate::text::occurs_at(t, needle, head.len() as int));
}

} // verus!
