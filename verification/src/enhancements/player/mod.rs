//! What is shown for a player.

use vstd::prelude::*;
use crate::text::lowercase;
use crate::text::same;
use crate::text::to_lowercase;

pub mod info_layout;
pub mod model_renderer;

verus! {

/// The character is a letter or a digit: what `char::is_alphanumeric`
/// answers.
pub uninterp spec fn is_alphanumeric(c: char) -> bool;

/// Whether the character is a letter or a digit.
///
/// This is `char::is_alphanumeric` of the standard library, which goes by
/// the Unicode tables.
#[verifier::external_body]
fn alphanumeric(c: char) -> (yes: bool)
    ensures
        yes == is_alphanumeric(c),
{
    c.is_alphanumeric()
}

/// The letters and digits of a text, in their order.
pub open spec fn letters_and_digits(text: Seq<char>) -> Seq<char> {
    text.filter(|c: char| is_alphanumeric(c))
}

/// The letters and digits of a text, in their order.
///
/// This is `str::replace` of the standard library, with everything that
/// is neither letter nor digit as the pattern and nothing to put in its
/// place.
#[verifier::external_body]
fn keep_letters_and_digits(text: &str) -> (out: String)
    ensures
        out@ == letters_and_digits(text@),
{
    text.replace(|c: char| is_sign(c), "")
}

/// Whether the character is neither letter nor digit.
fn is_sign(c: char) -> (yes: bool)
    ensures
        yes == !is_alphanumeric(c),
{
    !alphanumeric(c)
}

/// The name of the icon for a weapon by its lower-case display name,
/// where the two differ by more than spaces and signs.
pub open spec fn listed_icon(lower: Seq<char>) -> Option<Seq<char>> {
    if lower == "knife (t)"@ {
        Some("knife_t"@)
    } else if lower == "knife"@ {
        Some("knife"@)
    } else if lower == "bayonet"@ {
        Some("bayonet"@)
    } else if lower == "butterfly knife"@ {
        Some("knife_butterfly"@)
    } else if lower == "classic knife"@ {
        Some("knife_css"@)
    } else if lower == "cord knife"@ {
        Some("knife_cord"@)
    } else if lower == "falchion knife"@ {
        Some("knife_falchion"@)
    } else if lower == "flip knife"@ {
        Some("knife_flip"@)
    } else if lower == "gut knife"@ {
        Some("knife_gut"@)
    } else if lower == "huntsman knife"@ {
        Some("knife_tactical"@)
    } else if lower == "karambit"@ {
        Some("knife_karambit"@)
    } else if lower == "m9 bayonet"@ {
        Some("knife_m9_bayonet"@)
    } else if lower == "navaja knife"@ {
        Some("knife_gypsy_jackknife"@)
    } else if lower == "nomad knife"@ {
        Some("knife_outdoor"@)
    } else if lower == "shadow daggers"@ {
        Some("knife_push"@)
    } else if lower == "skeleton knife"@ {
        Some("knife_skeleton"@)
    } else if lower == "stiletto knife"@ {
        Some("knife_stiletto"@)
    } else if lower == "survival knife"@ {
        Some("knife_survival_bowie"@)
    } else if lower == "talon knife"@ {
        Some("knife_widowmaker"@)
    } else if lower == "ursus knife"@ {
        Some("knife_ursus"@)
    } else if lower == "bowie knife"@ {
        Some("knife_survival_bowie"@)
    } else if lower == "desert eagle"@ {
        Some("deagle"@)
    } else if lower == "r8 revolver"@ {
        Some("revolver"@)
    } else if lower == "cz75-auto"@ {
        Some("cz75a"@)
    } else if lower == "dual berettas"@ {
        Some("elite"@)
    } else if lower == "p2000"@ {
        Some("hkp2000"@)
    } else if lower == "glock-18"@ {
        Some("glock"@)
    } else if lower == "p250"@ {
        Some("p250"@)
    } else if lower == "five-seven"@ {
        Some("fiveseven"@)
    } else if lower == "tec-9"@ {
        Some("tec9"@)
    } else if lower == "usp-s"@ {
        Some("usp_silencer"@)
    } else if lower == "m4a1-s"@ {
        Some("m4a1_silencer"@)
    } else if lower == "m4a4"@ {
        Some("m4a1"@)
    } else if lower == "ak-47"@ {
        Some("ak47"@)
    } else if lower == "galil ar"@ {
        Some("galilar"@)
    } else if lower == "famas"@ {
        Some("famas"@)
    } else if lower == "aug"@ {
        Some("aug"@)
    } else if lower == "sg 553"@ {
        Some("sg556"@)
    } else if lower == "ssg 08"@ {
        Some("ssg08"@)
    } else if lower == "awp"@ {
        Some("awp"@)
    } else if lower == "g3sg1"@ {
        Some("g3sg1"@)
    } else if lower == "scar-20"@ {
        Some("scar20"@)
    } else if lower == "mac-10"@ {
        Some("mac10"@)
    } else if lower == "mp5-sd"@ {
        Some("mp5sd"@)
    } else if lower == "ump-45"@ {
        Some("ump451"@)
    } else if lower == "pp-bizon"@ {
        Some("bizon"@)
    } else if lower == "mp7"@ {
        Some("mp7"@)
    } else if lower == "mp9"@ {
        Some("mp9"@)
    } else if lower == "p90"@ {
        Some("p90"@)
    } else if lower == "mag-7"@ {
        Some("mag7"@)
    } else if lower == "nova"@ {
        Some("nova"@)
    } else if lower == "sawed-off"@ {
        Some("sawedoff"@)
    } else if lower == "xm1014"@ {
        Some("xm1014"@)
    } else if lower == "m249"@ {
        Some("m249"@)
    } else if lower == "negev"@ {
        Some("negev"@)
    } else if lower == "zeus x27"@ {
        Some("taser"@)
    } else if lower == "high explosive grenade"@ || lower == "he grenade"@ {
        Some("hegrenade"@)
    } else if lower == "smoke grenade"@ {
        Some("smokegrenade"@)
    } else if lower == "flashbang"@ {
        Some("flashbang"@)
    } else if lower == "molotov"@ {
        Some("molotov"@)
    } else if lower == "incendiary grenade"@ {
        Some("incgrenade0"@)
    } else if lower == "decoy grenade"@ {
        Some("decoy"@)
    } else if lower == "c4 explosive"@ {
        Some("c4"@)
    } else {
        None
    }
}

/// The name of the icon for a weapon with the given display name: the one
/// listed for it, or else the letters and digits of the name in lower
/// case.
pub open spec fn icon_name(display_name: Seq<char>) -> Seq<char> {
    match listed_icon(lowercase(display_name)) {
        Some(icon) => icon,
        None => letters_and_digits(lowercase(display_name)),
    }
}

/// The name of the icon that is listed for a lower-case display name.
fn find_listed_icon(lower: &str) -> (icon: Option<&'static str>)
    ensures
        match listed_icon(lower@) {
            Some(name) => icon is Some && icon->0@ == name,
            None => icon is None,
        },
{
    if same(lower, "knife (t)") {
        Some("knife_t")
    } else if same(lower, "knife") {
        Some("knife")
    } else if same(lower, "bayonet") {
        Some("bayonet")
    } else if same(lower, "butterfly knife") {
        Some("knife_butterfly")
    } else if same(lower, "classic knife") {
        Some("knife_css")
    } else if same(lower, "cord knife") {
        Some("knife_cord")
    } else if same(lower, "falchion knife") {
        Some("knife_falchion")
    } else if same(lower, "flip knife") {
        Some("knife_flip")
    } else if same(lower, "gut knife") {
        Some("knife_gut")
    } else if same(lower, "huntsman knife") {
        Some("knife_tactical")
    } else if same(lower, "karambit") {
        Some("knife_karambit")
    } else if same(lower, "m9 bayonet") {
        Some("knife_m9_bayonet")
    } else if same(lower, "navaja knife") {
        Some("knife_gypsy_jackknife")
    } else if same(lower, "nomad knife") {
        Some("knife_outdoor")
    } else if same(lower, "shadow daggers") {
        Some("knife_push")
    } else if same(lower, "skeleton knife") {
        Some("knife_skeleton")
    } else if same(lower, "stiletto knife") {
        Some("knife_stiletto")
    } else if same(lower, "survival knife") {
        Some("knife_survival_bowie")
    } else if same(lower, "talon knife") {
        Some("knife_widowmaker")
    } else if same(lower, "ursus knife") {
        Some("knife_ursus")
    } else if same(lower, "bowie knife") {
        Some("knife_survival_bowie")
    } else if same(lower, "desert eagle") {
        Some("deagle")
    } else if same(lower, "r8 revolver") {
        Some("revolver")
    } else if same(lower, "cz75-auto") {
        Some("cz75a")
    } else if same(lower, "dual berettas") {
        Some("elite")
    } else if same(lower, "p2000") {
        Some("hkp2000")
    } else if same(lower, "glock-18") {
        Some("glock")
    } else if same(lower, "p250") {
        Some("p250")
    } else if same(lower, "five-seven") {
        Some("fiveseven")
    } else if same(lower, "tec-9") {
        Some("tec9")
    } else if same(lower, "usp-s") {
        Some("usp_silencer")
    } else if same(lower, "m4a1-s") {
        Some("m4a1_silencer")
    } else if same(lower, "m4a4") {
        Some("m4a1")
    } else if same(lower, "ak-47") {
        Some("ak47")
    } else if same(lower, "galil ar") {
        Some("galilar")
    } else if same(lower, "famas") {
        Some("famas")
    } else if same(lower, "aug") {
        Some("aug")
    } else if same(lower, "sg 553") {
        Some("sg556")
    } else if same(lower, "ssg 08") {
        Some("ssg08")
    } else if same(lower, "awp") {
        Some("awp")
    } else if same(lower, "g3sg1") {
        Some("g3sg1")
    } else if same(lower, "scar-20") {
        Some("scar20")
    } else if same(lower, "mac-10") {
        Some("mac10")
    } else if same(lower, "mp5-sd") {
        Some("mp5sd")
    } else if same(lower, "ump-45") {
        Some("ump451")
    } else if same(lower, "pp-bizon") {
        Some("bizon")
    } else if same(lower, "mp7") {
        Some("mp7")
    } else if same(lower, "mp9") {
        Some("mp9")
    } else if same(lower, "p90") {
        Some("p90")
    } else if same(lower, "mag-7") {
        Some("mag7")
    } else if same(lower, "nova") {
        Some("nova")
    } else if same(lower, "sawed-off") {
        Some("sawedoff")
    } else if same(lower, "xm1014") {
        Some("xm1014")
    } else if same(lower, "m249") {
        Some("m249")
    } else if same(lower, "negev") {
        Some("negev")
    } else if same(lower, "zeus x27") {
        Some("taser")
    } else if same(lower, "high explosive grenade") || same(lower, "he grenade") {
        Some("hegrenade")
    } else if same(lower, "smoke grenade") {
        Some("smokegrenade")
    } else if same(lower, "flashbang") {
        Some("flashbang")
    } else if same(lower, "molotov") {
        Some("molotov")
    } else if same(lower, "incendiary grenade") {
        Some("incgrenade0")
    } else if same(lower, "decoy grenade") {
        Some("decoy")
    } else if same(lower, "c4 explosive") {
        Some("c4")
    } else {
        None
    }
}

/// The name of the icon for a weapon with the given display name.
pub fn map_weapon_to_icon(display_name: &str) -> (icon: String)
    ensures
        icon@ == icon_name(display_name@),
{
    let lower = to_lowercase(display_name);
    match find_listed_icon(lower.as_str()) {
        Some(icon) => icon.to_owned(),
        None => keep_letters_and_digits(lower.as_str()),
    }
}

} // verus!
