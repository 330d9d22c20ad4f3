//! The pure parts of the WebAssembly linter: resolving the configured rule set, the wire
//! spelling of a severity, and decoding a dictionary's hexadecimal pin.
use vstd::prelude::*;
use crate::ast::{Rule, Severity};
use crate::json::JsonValue;
use crate::registry::{build_rule, is_rule_id, BuiltinRule, RULE_IDS};
use crate::text::{push_str, str_eq};
use vstd::string::StringSliceAdditionalSpecFns;

verus! {

/// How the configuration sets up one rule.
#[derive(Debug)]
pub enum RuleSetting {
    /// The rule is turned off.
    Off,
    /// The rule is on, with an optional severity override and its options.
    On { severity: Option<Severity>, options: JsonValue },
}

/// One entry of the configuration's `rules` table.
#[derive(Debug)]
pub struct RuleEntry {
    pub id: String,
    pub setting: RuleSetting,
}

/// The setting of the first entry for `id`, if any.
pub open spec fn setting_of(rules: Seq<RuleEntry>, id: Seq<char>) -> Option<RuleSetting>
    decreases rules.len(),
{
    if rules.len() == 0 {
        None
    } else if rules[0].id@ == id {
        Some(rules[0].setting)
    } else {
        setting_of(rules.drop_first(), id)
    }
}

/// The built-in rules (by index into [`RULE_IDS`]) among the first `n` that the configuration
/// does not turn off, in order.
pub open spec fn active_rules(rules: Seq<RuleEntry>, n: int) -> Seq<int>
    decreases n,
{
    if n <= 0 {
        seq![]
    } else if setting_of(rules, RULE_IDS@[n - 1]@) matches Some(RuleSetting::Off) {
        active_rules(rules, n - 1)
    } else {
        active_rules(rules, n - 1).push(n - 1)
    }
}

/// Every built-in rule is on unless an entry turns it off: rule `k` is among the first `n`
/// active rules exactly when `k < n` and its setting is not `Off`; the active rules keep the
/// registry order.
pub proof fn law_rules_on_unless_turned_off(rules: Seq<RuleEntry>, n: int, k: int)
    requires
        0 <= n <= 17,
    ensures
        active_rules(rules, n).contains(k) <==> (0 <= k < n && !(setting_of(rules, RULE_IDS@[k]@) matches Some(
            RuleSetting::Off,
        ))),
        forall|a: int, b: int|
            0 <= a < b < active_rules(rules, n).len() ==> #[trigger] active_rules(rules, n)[a]
                < #[trigger] active_rules(rules, n)[b],
    decreases n,
{
    if n > 0 {
        law_rules_on_unless_turned_off(rules, n - 1, k);
        let prev = active_rules(rules, n - 1);
        let cur = active_rules(rules, n);
        law_rules_on_unless_turned_off(rules, n - 1, n - 1);
        if !(setting_of(rules, RULE_IDS@[n - 1]@) matches Some(RuleSetting::Off)) {
            assert(cur == prev.push(n - 1));
            if cur.contains(k) && k != n - 1 {
                let q = choose|q: int| 0 <= q < cur.len() && cur[q] == k;
                assert(prev[q] == k);
            }
            if prev.contains(k) {
                let q = choose|q: int| 0 <= q < prev.len() && prev[q] == k;
                assert(cur[q] == k);
            }
            if k == n - 1 {
                assert(cur[cur.len() - 1] == k);
            }
            assert forall|a: int, b: int| 0 <= a < b < cur.len() implies #[trigger] cur[a] < #[trigger] cur[b] by {
                assert(cur[a] == prev[a]);
                if b < prev.len() {
                    assert(cur[b] == prev[b]);
                } else {
                    assert(prev.contains(prev[a]));
                    law_rules_on_unless_turned_off(rules, n - 1, prev[a]);
                }
            }
        }
    }
}

/// Rule `r` is built-in rule `k` set up as the configuration says: its options (none when the
/// rule has no entry) and its severity override.
pub open spec fn resolved_as(r: BuiltinRule, rules: Seq<RuleEntry>, k: int) -> bool {
    &&& r.rule_id() == RULE_IDS@[k]@
    &&& r.spec_meta().node_kinds@ == crate::registry::rule_node_kinds(RULE_IDS@[k]@)
    &&& match setting_of(rules, RULE_IDS@[k]@) {
        Some(RuleSetting::On { severity, options }) => {
            &&& r.configured(options)
            &&& r.spec_meta().default_severity == match severity {
                Some(s) => s,
                None => Severity::Warning,
            }
        },
        _ => r.configured(JsonValue::Null) && r.spec_meta().default_severity == Severity::Warning,
    }
}

fn find_setting<'a>(rules: &'a Vec<RuleEntry>, id: &str) -> (r: Option<&'a RuleSetting>)
    ensures
        match setting_of(rules@, id@) {
            Some(s) => r.is_some() && *r.unwrap() == s,
            None => r.is_none(),
        },
{
    let mut i: usize = 0;
    assert(rules@.skip(0) =~= rules@);
    while i < rules.len()
        invariant
            i <= rules@.len(),
            setting_of(rules@, id@) == setting_of(rules@.skip(i as int), id@),
        decreases rules.len() - i,
    {
        assert(rules@.skip(i as int).drop_first() =~= rules@.skip(i + 1));
        assert(rules@.skip(i as int)[0] == rules@[i as int]);
        if str_eq(rules[i].id.as_str(), id) {
            return Some(&rules[i].setting);
        }
        i = i + 1;
    }
    None
}

/// The active built-in rule set: every rule on by default, minus those the configuration turns
/// off, each built with its configured options and severity, in [`RULE_IDS`] order.
pub fn resolve_rules(rules: &Vec<RuleEntry>) -> (r: Vec<BuiltinRule>)
    ensures
        r@.len() == active_rules(rules@, 17).len(),
        forall|j: int| 0 <= j < r@.len() ==> resolved_as(#[trigger] r@[j], rules@, active_rules(rules@, 17)[j]),
{
    let null = JsonValue::Null;
    let mut out: Vec<BuiltinRule> = Vec::new();
    let mut i: usize = 0;
    while i < 17
        invariant
            i <= 17,
            null == JsonValue::Null,
            out@.len() == active_rules(rules@, i as int).len(),
            forall|j: int| 0 <= j < out@.len() ==> resolved_as(#[trigger] out@[j], rules@, active_rules(rules@, i as int)[j]),
        decreases 17 - i,
    {
        let id = RULE_IDS[i];
        assert(is_rule_id(RULE_IDS@[i as int]@));
        let built = match find_setting(rules, id) {
            Some(RuleSetting::Off) => None,
            Some(RuleSetting::On { severity, options }) => build_rule(id, options, *severity),
            None => build_rule(id, &null, None),
        };
        if let Some(rule) = built {
            out.push(rule);
        }
        i = i + 1;
    }
    out
}

/// The lowercase wire spelling of a severity.
pub open spec fn severity_word(s: Severity) -> Seq<char> {
    match s {
        Severity::Error => "error"@,
        Severity::Warning => "warning"@,
        Severity::Info => "info"@,
        Severity::Hint => "hint"@,
    }
}

pub fn severity_str(severity: Severity) -> (r: &'static str)
    ensures
        r@ == severity_word(severity),
{
    match severity {
        Severity::Error => "error",
        Severity::Warning => "warning",
        Severity::Info => "info",
        Severity::Hint => "hint",
    }
}

/// The value of one hexadecimal digit byte (`0-9`, `a-f`, `A-F`).
pub open spec fn nibble(b: u8) -> Option<u8> {
    if 48 <= b <= 57 {
        Some((b - 48) as u8)
    } else if 97 <= b <= 102 {
        Some((b - 97 + 10) as u8)
    } else if 65 <= b <= 70 {
        Some((b - 65 + 10) as u8)
    } else {
        None
    }
}

pub fn hex_nibble(b: u8) -> (r: Option<u8>)
    ensures
        r == nibble(b),
{
    // '0'..='9', 'a'..='f', 'A'..='F'
    if 48 <= b && b <= 57 {
        Some(b - 48)
    } else if 97 <= b && b <= 102 {
        Some(b - 97 + 10)
    } else if 65 <= b && b <= 70 {
        Some(b - 65 + 10)
    } else {
        None
    }
}

/// Whether every byte is a hexadecimal digit.
pub open spec fn all_hex(bs: Seq<u8>) -> bool {
    forall|i: int| 0 <= i < bs.len() ==> #[trigger] nibble(bs[i]) is Some
}

/// Byte `i` of the pin spelled by `bs`: the digits at `2i` (high) and `2i + 1` (low).
pub open spec fn pin_byte(bs: Seq<u8>, i: int) -> int {
    nibble(bs[2 * i]).unwrap() * 16 + nibble(bs[2 * i + 1]).unwrap()
}

/// Decode 64 hexadecimal digits into a 32-byte pin.
pub fn decode_pin(hex: &str) -> (r: Result<[u8; 32], String>)
    ensures
        r.is_ok() == (hex.spec_bytes().len() == 64 && all_hex(hex.spec_bytes())),
        r matches Ok(out) ==> forall|i: int| 0 <= i < 32 ==> #[trigger] out@[i] == pin_byte(hex.spec_bytes(), i),
        r matches Err(e) ==> e@ == if hex.spec_bytes().len() != 64 {
            "dictionary pin must be 64 hexadecimal characters"@
        } else {
            "dictionary pin has a non-hex character"@
        },
{
    let bytes = hex.as_bytes();
    if bytes.len() != 64 {
        return Err("dictionary pin must be 64 hexadecimal characters".to_owned());
    }
    let mut out: [u8; 32] = [0u8; 32];
    let mut i: usize = 0;
    while i < 32
        invariant
            bytes@ == hex.spec_bytes(),
            bytes@.len() == 64,
            i <= 32,
            forall|k: int| 0 <= k < 2 * i ==> #[trigger] nibble(bytes@[k]) is Some,
            forall|k: int| 0 <= k < i ==> #[trigger] out@[k] == pin_byte(bytes@, k),
        decreases 32 - i,
    {
        let hi = match hex_nibble(bytes[2 * i]) {
            Some(v) => v,
            None => {
                return Err("dictionary pin has a non-hex character".to_owned());
            },
        };
        let lo = match hex_nibble(bytes[2 * i + 1]) {
            Some(v) => v,
            None => {
                return Err("dictionary pin has a non-hex character".to_owned());
            },
        };
        assert(((hi << 4u8) | lo) == hi * 16 + lo) by (bit_vector)
            requires
                hi < 16,
                lo < 16,
        ;
        out[i] = (hi << 4) | lo;
        i = i + 1;
    }
    Ok(out)
}

/// The refusal of a dictionary for a language other than Japanese.
pub open spec fn unsupported_language_message(lang: Seq<char>) -> Seq<char> {
    "unsupported morphology language '"@ + lang + "' (only 'ja')"@
}

/// The checks a dictionary registration makes before it touches the dictionary bytes: only a
/// Japanese (`ja`) dictionary is accepted, and its pin must decode (see [`decode_pin`]).
pub fn dictionary_pin(lang: &str, pin_hex: &str) -> (r: Result<[u8; 32], String>)
    ensures
        lang@ != "ja"@ ==> (r matches Err(e) && e@ == unsupported_language_message(lang@)),
        lang@ == "ja"@ ==> r.is_ok() == (pin_hex.spec_bytes().len() == 64 && all_hex(pin_hex.spec_bytes())),
        lang@ == "ja"@ ==> (r matches Ok(out) ==> forall|i: int|
            0 <= i < 32 ==> #[trigger] out@[i] == pin_byte(pin_hex.spec_bytes(), i)),
        lang@ == "ja"@ ==> (r matches Err(e) ==> e@ == if pin_hex.spec_bytes().len() != 64 {
            "dictionary pin must be 64 hexadecimal characters"@
        } else {
            "dictionary pin has a non-hex character"@
        }),
{
    if !str_eq(lang, "ja") {
        let mut m = String::new();
        push_str(&mut m, "unsupported morphology language '");
        push_str(&mut m, lang);
        push_str(&mut m, "' (only 'ja')");
        return Err(m);
    }
    decode_pin(pin_hex)
}

} // verus!
