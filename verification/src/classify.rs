//! Classification of a name into an alphabet/script bucket.
//!
//! Only the first character of the name decides the bucket. The rules are
//! evaluated in a fixed priority order and the first matching rule wins;
//! the empty name matches no rule and falls through to `"Uncategorized"`.

use vstd::prelude::*;
use vstd::string::StrSliceExecFns;

verus! {

/// ASCII-uppercased code point: lowercase ASCII letters map to their
/// uppercase counterpart, every other code point is unchanged.
pub open spec fn spec_ascii_upper(u: u32) -> u32 {
    if 97 <= u && u <= 122 {
        (u - 32) as u32
    } else {
        u
    }
}

/// The bucket label for a name whose first character is `c`, following the
/// rule order: ASCII digits, four Latin-letter ranges (case-insensitive),
/// hiragana, katakana, CJK unified ideographs, then the catch-all `"+"`.
pub open spec fn spec_char_label(c: char) -> Seq<char> {
    let u = c as u32;
    let up = spec_ascii_upper(u);
    if 48 <= u && u <= 57 {
        "0-9"@
    } else if 65 <= up && up <= 68 {
        "ABCD"@
    } else if 69 <= up && up <= 75 {
        "EFGHIJK"@
    } else if 76 <= up && up <= 81 {
        "LMNOPQ"@
    } else if 82 <= up && up <= 84 {
        "RST"@
    } else if 85 <= up && up <= 90 {
        "UVWXYZ"@
    } else if 0x3040 <= u && u <= 0x309f {
        "平假"@
    } else if 0x30a0 <= u && u <= 0x30ff {
        "片假"@
    } else if 0x4e00 <= u && u <= 0x9fa5 {
        "字"@
    } else {
        "+"@
    }
}

/// The bucket label of a whole name: decided by its first character,
/// `"Uncategorized"` for the empty name.
pub open spec fn spec_classify(name: Seq<char>) -> Seq<char> {
    if name.len() == 0 {
        "Uncategorized"@
    } else {
        spec_char_label(name[0])
    }
}

/// Finds the bucket label for `name` by evaluating the first-character
/// rules in priority order; returns `"Uncategorized"` when no rule matches
/// (which happens exactly for the empty name).
pub fn first_char_rules_find(name: &str) -> (r: &'static str)
    ensures
        r@ == spec_classify(name@),
{
    if name.is_empty() {
        return "Uncategorized";
    }
    let c = name.get_char(0);
    let u = c as u32;
    let up = if 97 <= u && u <= 122 {
        u - 32
    } else {
        u
    };
    if 48 <= u && u <= 57 {
        "0-9"
    } else if 65 <= up && up <= 68 {
        "ABCD"
    } else if 69 <= up && up <= 75 {
        "EFGHIJK"
    } else if 76 <= up && up <= 81 {
        "LMNOPQ"
    } else if 82 <= up && up <= 84 {
        "RST"
    } else if 85 <= up && up <= 90 {
        "UVWXYZ"
    } else if 0x3040 <= u && u <= 0x309f {
        "平假"
    } else if 0x30a0 <= u && u <= 0x30ff {
        "片假"
    } else if 0x4e00 <= u && u <= 0x9fa5 {
        "字"
    } else {
        "+"
    }
}

/// Law: every non-empty name whose first character is an ASCII digit is
/// classified `"0-9"`, and the empty name is classified `"Uncategorized"`.
pub proof fn lemma_classify_digit_and_empty(name: Seq<char>)
    ensures
        name.len() > 0 && 48 <= name[0] as u32 <= 57 ==> spec_classify(name) == "0-9"@,
        name.len() == 0 ==> spec_classify(name) == "Uncategorized"@,
{
}

/// Law: classification is total — every name, over all of Unicode, resolves
/// to one of the fixed bucket labels. (It is deterministic by construction:
/// the label is a function of the name's characters alone.)
pub proof fn lemma_classify_total(name: Seq<char>)
    ensures
        spec_classify(name) == "0-9"@ || spec_classify(name) == "ABCD"@ || spec_classify(name)
            == "EFGHIJK"@ || spec_classify(name) == "LMNOPQ"@ || spec_classify(name) == "RST"@
            || spec_classify(name) == "UVWXYZ"@ || spec_classify(name) == "平假"@ || spec_classify(
            name,
        ) == "片假"@ || spec_classify(name) == "字"@ || spec_classify(name) == "+"@
            || spec_classify(name) == "Uncategorized"@,
{
}

/// Law: rule order is significant and letter ranges take precedence over the
/// catch-all: a name whose first character is a Latin letter (either case)
/// resolves to its letter-range bucket, never to `"+"`; and `"Uncategorized"`
/// is returned exactly for the empty name.
pub proof fn lemma_classify_precedence(name: Seq<char>)
    ensures
        ({
            let up = spec_ascii_upper(name[0] as u32);
            name.len() > 0 && 65 <= up <= 90 ==> spec_classify(name) == (if up <= 68 {
                "ABCD"@
            } else if up <= 75 {
                "EFGHIJK"@
            } else if up <= 81 {
                "LMNOPQ"@
            } else if up <= 84 {
                "RST"@
            } else {
                "UVWXYZ"@
            }) && spec_classify(name) != "+"@
        }),
        spec_classify(name) == "Uncategorized"@ <==> name.len() == 0,
{
    reveal_strlit("0-9");
    reveal_strlit("ABCD");
    reveal_strlit("EFGHIJK");
    reveal_strlit("LMNOPQ");
    reveal_strlit("RST");
    reveal_strlit("UVWXYZ");
    reveal_strlit("平假");
    reveal_strlit("片假");
    reveal_strlit("字");
    reveal_strlit("+");
    reveal_strlit("Uncategorized");
    assert("0-9"@.len() == 3);
    assert("ABCD"@.len() == 4);
    assert("EFGHIJK"@.len() == 7);
    assert("LMNOPQ"@.len() == 6);
    assert("RST"@.len() == 3);
    assert("UVWXYZ"@.len() == 6);
    assert("平假"@.len() == 2);
    assert("片假"@.len() == 2);
    assert("字"@.len() == 1);
    assert("+"@.len() == 1);
    assert("Uncategorized"@.len() == 13);
    assert("RST"@[0] == 'R' && "0-9"@[0] == '0');
}

} // verus!
