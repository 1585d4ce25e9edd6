use vstd::prelude::*;
use vstd::string::*;

use crate::text::{contains, contains_bytes, same_bytes, slice_bytes};

verus! {

/// `/` or `\`.
pub open spec fn is_separator(b: u8) -> bool {
    b == 47u8 || b == 92u8
}

/// The position of the last path separator in `s`, or -1.
pub open spec fn last_separator(s: Seq<u8>) -> int
    decreases s.len(),
{
    if s.len() == 0 {
        -1
    } else if is_separator(s.last()) {
        s.len() - 1
    } else {
        last_separator(s.drop_last())
    }
}

/// `.fs`.
pub open spec fn fs_extension() -> Seq<u8> {
    seq![46u8, 102u8, 115u8]
}

/// The name of a shader file: the part after the last separator, without `.fs`.
pub open spec fn shader_stem(source: Seq<u8>) -> Seq<u8> {
    let file = source.subrange(last_separator(source) + 1, source.len() as int);
    if file.len() >= 3 && file.subrange(file.len() - 3, file.len() as int) == fs_extension() {
        file.subrange(0, file.len() - 3)
    } else {
        file
    }
}

/// The card effect whose shader has this name, or 0.
pub open spec fn named_effect(name: Seq<u8>) -> u8 {
    if name == "played".spec_bytes() {
        1
    } else if name == "debuff".spec_bytes() {
        2
    } else if name == "foil".spec_bytes() {
        3
    } else if name == "holo".spec_bytes() {
        4
    } else if name == "polychrome".spec_bytes() {
        5
    } else if name == "negative".spec_bytes() {
        6
    } else if name == "voucher".spec_bytes() {
        7
    } else if name == "booster".spec_bytes() {
        8
    } else if name == "hologram".spec_bytes() {
        9
    } else if name == "negative_shine".spec_bytes() {
        10
    } else if name == "gold_seal".spec_bytes() {
        11
    } else {
        0
    }
}

/// The card effect that shader source text declares inputs for, or 0: the first name that
/// occurs, longer names before the names they contain.
pub open spec fn declared_effect(source: Seq<u8>) -> u8 {
    if !contains(source, "extern".spec_bytes()) {
        0
    } else if contains(source, "negative_shine".spec_bytes()) {
        10
    } else if contains(source, "gold_seal".spec_bytes()) {
        11
    } else if contains(source, "polychrome".spec_bytes()) {
        5
    } else if contains(source, "hologram".spec_bytes()) {
        9
    } else if contains(source, "played".spec_bytes()) {
        1
    } else if contains(source, "debuff".spec_bytes()) {
        2
    } else if contains(source, "foil".spec_bytes()) {
        3
    } else if contains(source, "holo".spec_bytes()) {
        4
    } else if contains(source, "negative".spec_bytes()) {
        6
    } else if contains(source, "voucher".spec_bytes()) {
        7
    } else if contains(source, "booster".spec_bytes()) {
        8
    } else {
        0
    }
}

/// The card effect a shader stands for, from its file name or else its source text; 0 for
/// shaders that are not card effects.
pub open spec fn card_shader(source: Seq<u8>) -> u8 {
    if named_effect(shader_stem(source)) != 0 {
        named_effect(shader_stem(source))
    } else {
        declared_effect(source)
    }
}

/// The position just after the last separator in `s`.
proof fn lemma_last_separator_bound(s: Seq<u8>)
    ensures
        -1 <= last_separator(s) < s.len(),
    decreases s.len(),
{
    if s.len() > 0 {
        lemma_last_separator_bound(s.drop_last());
    }
}

fn file_name_start(s: &[u8]) -> (i: usize)
    ensures
        i == last_separator(s@) + 1,
        i <= s.len(),
{
    proof {
        lemma_last_separator_bound(s@);
    }
    assert(s@.subrange(0, s.len() as int) =~= s@);
    let mut i = s.len();
    while i > 0
        invariant
            i <= s.len(),
            last_separator(s@) == last_separator(s@.subrange(0, i as int)),
        decreases i,
    {
        let ghost pre = s@.subrange(0, i as int);
        assert(pre.drop_last() =~= s@.subrange(0, i - 1));
        if s[i - 1] == 47u8 || s[i - 1] == 92u8 {
            return i;
        }
        i = i - 1;
    }
    assert(s@.subrange(0, 0) =~= Seq::<u8>::empty());
    0
}

fn named_effect_exec(name: &[u8]) -> (e: u8)
    ensures
        e == named_effect(name@),
{
    if same_bytes(name, "played".as_bytes()) {
        1
    } else if same_bytes(name, "debuff".as_bytes()) {
        2
    } else if same_bytes(name, "foil".as_bytes()) {
        3
    } else if same_bytes(name, "holo".as_bytes()) {
        4
    } else if same_bytes(name, "polychrome".as_bytes()) {
        5
    } else if same_bytes(name, "negative".as_bytes()) {
        6
    } else if same_bytes(name, "voucher".as_bytes()) {
        7
    } else if same_bytes(name, "booster".as_bytes()) {
        8
    } else if same_bytes(name, "hologram".as_bytes()) {
        9
    } else if same_bytes(name, "negative_shine".as_bytes()) {
        10
    } else if same_bytes(name, "gold_seal".as_bytes()) {
        11
    } else {
        0
    }
}

fn declared_effect_exec(s: &[u8]) -> (e: u8)
    ensures
        e == declared_effect(s@),
{
    if !contains_bytes(s, "extern".as_bytes()) {
        0
    } else if contains_bytes(s, "negative_shine".as_bytes()) {
        10
    } else if contains_bytes(s, "gold_seal".as_bytes()) {
        11
    } else if contains_bytes(s, "polychrome".as_bytes()) {
        5
    } else if contains_bytes(s, "hologram".as_bytes()) {
        9
    } else if contains_bytes(s, "played".as_bytes()) {
        1
    } else if contains_bytes(s, "debuff".as_bytes()) {
        2
    } else if contains_bytes(s, "foil".as_bytes()) {
        3
    } else if contains_bytes(s, "holo".as_bytes()) {
        4
    } else if contains_bytes(s, "negative".as_bytes()) {
        6
    } else if contains_bytes(s, "voucher".as_bytes()) {
        7
    } else if contains_bytes(s, "booster".as_bytes()) {
        8
    } else {
        0
    }
}

/// The card effect of a shader given by its file path or its source text.
pub fn card_shader_for_source(source: &str) -> (e: u8)
    ensures
        e == card_shader(source.spec_bytes()),
{
    let s = source.as_bytes();
    let start = file_name_start(s);
    let file = slice_bytes(s, start, s.len());
    let fs: [u8; 3] = [46u8, 102u8, 115u8];
    assert(fs@ =~= fs_extension());
    let name = if file.len() >= 3 && same_bytes(slice_bytes(file.as_slice(), file.len() - 3, file.len()).as_slice(), &fs) {
        slice_bytes(file.as_slice(), 0, file.len() - 3)
    } else {
        file
    };
    let named = named_effect_exec(name.as_slice());
    if named != 0 {
        named
    } else {
        declared_effect_exec(s)
    }
}

/// The name under which a card effect's shader takes its vector input.
pub open spec fn effect_name(effect: u8) -> Option<&'static str> {
    match effect {
        1 => Some("played"),
        2 => Some("debuff"),
        3 => Some("foil"),
        4 => Some("holo"),
        5 => Some("polychrome"),
        6 => Some("negative"),
        7 => Some("voucher"),
        8 => Some("booster"),
        9 => Some("hologram"),
        10 => Some("negative_shine"),
        11 => Some("gold_seal"),
        _ => None,
    }
}

/// The name of the vector input of a card effect's shader; `None` for no effect.
pub fn vector_name(effect: u8) -> (name: Option<&'static str>)
    ensures
        name == effect_name(effect),
{
    match effect {
        1 => Some("played"),
        2 => Some("debuff"),
        3 => Some("foil"),
        4 => Some("holo"),
        5 => Some("polychrome"),
        6 => Some("negative"),
        7 => Some("voucher"),
        8 => Some("booster"),
        9 => Some("hologram"),
        10 => Some("negative_shine"),
        11 => Some("gold_seal"),
        _ => None,
    }
}

proof fn lemma_no_separator(s: Seq<u8>)
    requires
        forall|i: int| 0 <= i < s.len() ==> !is_separator(#[trigger] s[i]),
    ensures
        last_separator(s) == -1,
    decreases s.len(),
{
    if s.len() > 0 {
        lemma_no_separator(s.drop_last());
    }
}

/// The bytes of an ASCII literal are its characters.
proof fn lemma_ascii_literal(s: &str)
    requires
        is_ascii(s),
    ensures
        s.spec_bytes() == Seq::new(s@.len(), |i: int| s@[i] as u8),
        forall|i: int| 0 <= i < s@.len() ==> #[trigger] s.spec_bytes()[i] == s@[i] as u8,
{
    is_ascii_spec_bytes(s);
}

/// A shader named after the vector input of a card effect is recognised as that effect.
pub proof fn law_effect_names_round_trip(effect: u8)
    requires
        1 <= effect <= 11,
    ensures
        card_shader(effect_name(effect)->0.spec_bytes()) == effect,
{
    reveal_strlit("played");
    lemma_ascii_literal("played");
    reveal_strlit("debuff");
    lemma_ascii_literal("debuff");
    reveal_strlit("foil");
    lemma_ascii_literal("foil");
    reveal_strlit("holo");
    lemma_ascii_literal("holo");
    reveal_strlit("polychrome");
    lemma_ascii_literal("polychrome");
    reveal_strlit("negative");
    lemma_ascii_literal("negative");
    reveal_strlit("voucher");
    lemma_ascii_literal("voucher");
    reveal_strlit("booster");
    lemma_ascii_literal("booster");
    reveal_strlit("hologram");
    lemma_ascii_literal("hologram");
    reveal_strlit("negative_shine");
    lemma_ascii_literal("negative_shine");
    reveal_strlit("gold_seal");
    lemma_ascii_literal("gold_seal");
    let name = effect_name(effect)->0.spec_bytes();
    assert(forall|i: int| 0 <= i < name.len() ==> !is_separator(#[trigger] name[i]));
    lemma_no_separator(name);
    assert(name.subrange(0, name.len() as int) =~= name);
    assert(name.len() < 3 || name.subrange(name.len() - 3, name.len() as int) != fs_extension());
    assert(shader_stem(name) == name);
    if effect == 1 {
    }
    if effect == 2 {
        assert("debuff".spec_bytes()[0] != "played".spec_bytes()[0]);
    }
    if effect == 3 {
        assert("foil".spec_bytes().len() != "played".spec_bytes().len());
        assert("foil".spec_bytes().len() != "debuff".spec_bytes().len());
    }
    if effect == 4 {
        assert("holo".spec_bytes().len() != "played".spec_bytes().len());
        assert("holo".spec_bytes().len() != "debuff".spec_bytes().len());
        assert("holo".spec_bytes()[0] != "foil".spec_bytes()[0]);
    }
    if effect == 5 {
        assert("polychrome".spec_bytes().len() != "played".spec_bytes().len());
        assert("polychrome".spec_bytes().len() != "debuff".spec_bytes().len());
        assert("polychrome".spec_bytes().len() != "foil".spec_bytes().len());
        assert("polychrome".spec_bytes().len() != "holo".spec_bytes().len());
    }
    if effect == 6 {
        assert("negative".spec_bytes().len() != "played".spec_bytes().len());
        assert("negative".spec_bytes().len() != "debuff".spec_bytes().len());
        assert("negative".spec_bytes().len() != "foil".spec_bytes().len());
        assert("negative".spec_bytes().len() != "holo".spec_bytes().len());
        assert("negative".spec_bytes().len() != "polychrome".spec_bytes().len());
    }
    if effect == 7 {
        assert("voucher".spec_bytes().len() != "played".spec_bytes().len());
        assert("voucher".spec_bytes().len() != "debuff".spec_bytes().len());
        assert("voucher".spec_bytes().len() != "foil".spec_bytes().len());
        assert("voucher".spec_bytes().len() != "holo".spec_bytes().len());
        assert("voucher".spec_bytes().len() != "polychrome".spec_bytes().len());
        assert("voucher".spec_bytes().len() != "negative".spec_bytes().len());
    }
    if effect == 8 {
        assert("booster".spec_bytes().len() != "played".spec_bytes().len());
        assert("booster".spec_bytes().len() != "debuff".spec_bytes().len());
        assert("booster".spec_bytes().len() != "foil".spec_bytes().len());
        assert("booster".spec_bytes().len() != "holo".spec_bytes().len());
        assert("booster".spec_bytes().len() != "polychrome".spec_bytes().len());
        assert("booster".spec_bytes().len() != "negative".spec_bytes().len());
        assert("booster".spec_bytes()[0] != "voucher".spec_bytes()[0]);
    }
    if effect == 9 {
        assert("hologram".spec_bytes().len() != "played".spec_bytes().len());
        assert("hologram".spec_bytes().len() != "debuff".spec_bytes().len());
        assert("hologram".spec_bytes().len() != "foil".spec_bytes().len());
        assert("hologram".spec_bytes().len() != "holo".spec_bytes().len());
        assert("hologram".spec_bytes().len() != "polychrome".spec_bytes().len());
        assert("hologram".spec_bytes()[0] != "negative".spec_bytes()[0]);
        assert("hologram".spec_bytes().len() != "voucher".spec_bytes().len());
        assert("hologram".spec_bytes().len() != "booster".spec_bytes().len());
    }
    if effect == 10 {
        assert("negative_shine".spec_bytes().len() != "played".spec_bytes().len());
        assert("negative_shine".spec_bytes().len() != "debuff".spec_bytes().len());
        assert("negative_shine".spec_bytes().len() != "foil".spec_bytes().len());
        assert("negative_shine".spec_bytes().len() != "holo".spec_bytes().len());
        assert("negative_shine".spec_bytes().len() != "polychrome".spec_bytes().len());
        assert("negative_shine".spec_bytes().len() != "negative".spec_bytes().len());
        assert("negative_shine".spec_bytes().len() != "voucher".spec_bytes().len());
        assert("negative_shine".spec_bytes().len() != "booster".spec_bytes().len());
        assert("negative_shine".spec_bytes().len() != "hologram".spec_bytes().len());
    }
    if effect == 11 {
        assert("gold_seal".spec_bytes().len() != "played".spec_bytes().len());
        assert("gold_seal".spec_bytes().len() != "debuff".spec_bytes().len());
        assert("gold_seal".spec_bytes().len() != "foil".spec_bytes().len());
        assert("gold_seal".spec_bytes().len() != "holo".spec_bytes().len());
        assert("gold_seal".spec_bytes().len() != "polychrome".spec_bytes().len());
        assert("gold_seal".spec_bytes().len() != "negative".spec_bytes().len());
        assert("gold_seal".spec_bytes().len() != "voucher".spec_bytes().len());
        assert("gold_seal".spec_bytes().len() != "booster".spec_bytes().len());
        assert("gold_seal".spec_bytes().len() != "hologram".spec_bytes().len());
        assert("gold_seal".spec_bytes().len() != "negative_shine".spec_bytes().len());
    }
}

} // verus!
