//! Colours and the selectors of the per-target display configuration.

use vstd::prelude::*;
use crate::text::concat;
use crate::text::lowercase;
use crate::text::to_lowercase;

verus! {

/// The number whose little-endian bytes are the four given channels.
pub open spec fn pack_channels(r: u8, g: u8, b: u8, a: u8) -> u32 {
    (r as u32) | ((g as u32) << 8u32) | ((b as u32) << 16u32) | ((a as u32) << 24u32)
}

/// An RGBA colour packed into 32 bits: red is the lowest byte, alpha the highest.
#[derive(Clone, Copy, PartialEq, Eq, Structural, Debug, Default)]
pub struct Color(pub u32);

impl Color {
    /// The red channel.
    pub open spec fn red(self) -> u8 {
        (self.0 & 0xff) as u8
    }

    /// The green channel.
    pub open spec fn green(self) -> u8 {
        ((self.0 >> 8u32) & 0xff) as u8
    }

    /// The blue channel.
    pub open spec fn blue(self) -> u8 {
        ((self.0 >> 16u32) & 0xff) as u8
    }

    /// The alpha channel.
    pub open spec fn alpha(self) -> u8 {
        ((self.0 >> 24u32) & 0xff) as u8
    }

    /// The four channels in the order red, green, blue, alpha.
    pub open spec fn channels(self) -> Seq<u8> {
        seq![self.red(), self.green(), self.blue(), self.alpha()]
    }

    /// The channels as bytes, red first.
    pub fn as_u8(&self) -> (out: [u8; 4])
        ensures
            out@ == self.channels(),
    {
        let v: u32 = self.0;
        let out = [
            (v & 0xff) as u8,
            ((v >> 8u32) & 0xff) as u8,
            ((v >> 16u32) & 0xff) as u8,
            ((v >> 24u32) & 0xff) as u8,
        ];
        assert(out@ =~= self.channels());
        out
    }

    /// The colour with the given channels, red first.
    pub fn from_u8(value: [u8; 4]) -> (c: Color)
        ensures
            c.0 == pack_channels(value@[0], value@[1], value@[2], value@[3]),
            c.channels() == value@,
    {
        let r: u8 = value[0];
        let g: u8 = value[1];
        let b: u8 = value[2];
        let a: u8 = value[3];
        let v: u32 = (r as u32) | ((g as u32) << 8u32) | ((b as u32) << 16u32) | ((a as u32)
            << 24u32);
        let c = Color(v);
        proof {
            lemma_pack_unpack(r, g, b, a);
            assert(c.channels() =~= value@);
        }
        c
    }

    /// The colour whose packed form is `value`.
    pub fn from_u32(value: u32) -> (c: Color)
        ensures
            c.0 == value,
    {
        Color(value)
    }

    /// The colour as it shows in light of the given brightness: red, green
    /// and blue are dimmed to as many 255ths of what they are, and alpha
    /// stays.
    pub open spec fn lit_spec(self, light: u8) -> Color {
        Color(
            pack_channels(
                ((self.red() * light) / 255) as u8,
                ((self.green() * light) / 255) as u8,
                ((self.blue() * light) / 255) as u8,
                self.alpha(),
            ),
        )
    }

    /// The colour as it shows in light of the given brightness.
    pub fn lit(&self, light: u8) -> (c: Color)
        ensures
            c == self.lit_spec(light),
            c.alpha() == self.alpha(),
            light == 255 ==> c == *self,
    {
        let value = self.as_u8();
        let r = dimmed(value[0], light);
        let g = dimmed(value[1], light);
        let b = dimmed(value[2], light);
        let c = Color::from_u8([r, g, b, value[3]]);
        proof {
            lemma_pack_unpack(r, g, b, value[3]);
            if light == 255 {
                lemma_unpack_pack(*self);
            }
        }
        c
    }

    /// Replaces the alpha channel and keeps the three others.
    pub fn set_alpha_u8(&mut self, alpha: u8)
        ensures
            final(self).alpha() == alpha,
            final(self).red() == old(self).red(),
            final(self).green() == old(self).green(),
            final(self).blue() == old(self).blue(),
            final(self).0 == pack_channels(
                old(self).red(),
                old(self).green(),
                old(self).blue(),
                alpha,
            ),
    {
        let value = self.as_u8();
        let next = [value[0], value[1], value[2], alpha];
        *self = Color::from_u8(next);
    }
}

/// As many 255ths of a channel as the light has.
fn dimmed(channel: u8, light: u8) -> (out: u8)
    ensures
        out == (channel * light) / 255,
        light == 255 ==> out == channel,
{
    assert(0 <= channel * light <= 255 * 255) by (nonlinear_arith)
        requires
            0 <= channel <= 255,
            0 <= light <= 255,
    ;
    ((channel as u32 * light as u32) / 255) as u8
}

/// Packing four channels and reading them back gives the same four channels.
pub proof fn lemma_pack_unpack(r: u8, g: u8, b: u8, a: u8)
    ensures
        Color(pack_channels(r, g, b, a)).red() == r,
        Color(pack_channels(r, g, b, a)).green() == g,
        Color(pack_channels(r, g, b, a)).blue() == b,
        Color(pack_channels(r, g, b, a)).alpha() == a,
{
    assert((((r as u32) | ((g as u32) << 8u32) | ((b as u32) << 16u32) | ((a as u32) << 24u32))
        & 0xff) as u8 == r) by (bit_vector);
    assert(((((r as u32) | ((g as u32) << 8u32) | ((b as u32) << 16u32) | ((a as u32) << 24u32))
        >> 8u32) & 0xff) as u8 == g) by (bit_vector);
    assert(((((r as u32) | ((g as u32) << 8u32) | ((b as u32) << 16u32) | ((a as u32) << 24u32))
        >> 16u32) & 0xff) as u8 == b) by (bit_vector);
    assert(((((r as u32) | ((g as u32) << 8u32) | ((b as u32) << 16u32) | ((a as u32) << 24u32))
        >> 24u32) & 0xff) as u8 == a) by (bit_vector);
}

/// Reading the four channels of a colour and packing them gives the colour back.
pub proof fn lemma_unpack_pack(c: Color)
    ensures
        Color::from_u8_spec(c.channels()) == c,
{
    let v = c.0;
    assert((((v & 0xff) as u8) as u32) | ((((v >> 8u32) & 0xff) as u8 as u32) << 8u32) | ((((v
        >> 16u32) & 0xff) as u8 as u32) << 16u32) | ((((v >> 24u32) & 0xff) as u8 as u32) << 24u32)
        == v) by (bit_vector);
}

impl Color {
    /// The colour with the given four channels, red first.
    pub open spec fn from_u8_spec(value: Seq<u8>) -> Color
        recommends
            value.len() == 4,
    {
        Color(pack_channels(value[0], value[1], value[2], value[3]))
    }
}

/// The kind of a colour rule.
#[derive(Clone, Copy, Debug, PartialEq, Eq, Structural, PartialOrd)]
pub enum EspColorType {
    Static,
    HealthBased,
    HealthBasedRainbow,
    DistanceBased,
    GradientPulse,
    GradientVertical,
}

/// Where the health bar is drawn.
#[derive(Clone, Copy, Debug, PartialEq, Eq, Structural, PartialOrd)]
pub enum EspHealthBar {
    Off,
    Top,
    Bottom,
    Left,
    Right,
}

/// The kind of box drawn around a target.
#[derive(Clone, Copy, Debug, PartialEq, Eq, Structural, PartialOrd)]
pub enum EspBoxType {
    Off,
    Box2D,
    Box3D,
}

/// Where on the screen a tracer line starts.
#[derive(Clone, Copy, Debug, PartialEq, Eq, Structural, PartialOrd)]
pub enum EspTracePosition {
    Off,
    TopLeft,
    TopCenter,
    TopRight,
    Center,
    BottomLeft,
    BottomCenter,
    BottomRight,
}

/// How the head marker is drawn.
#[derive(Clone, Copy, Debug, PartialEq, Eq, Structural, PartialOrd)]
pub enum EspHeadDot {
    Off,
    Filled,
    NotFilled,
}

/// Whether a piece of information is shown as text or as an icon.
#[derive(Clone, Copy, Debug, PartialEq, Eq, Structural, PartialOrd)]
pub enum EspInfoStyle {
    Text,
    Icon,
}

/// How text is set off from what lies behind it.
#[derive(Clone, Copy, Debug, PartialEq, Eq, Structural, PartialOrd)]
pub enum EspTextStyle {
    Shadow,
    Outline,
    Neon,
}

/// The groups that weapons are configured by.
#[derive(Clone, Copy, Debug, PartialEq, Eq, Structural, PartialOrd)]
pub enum EspWeaponType {
    Pistol,
    Shotgun,
    SMG,
    Rifle,
    SniperRifle,
    MachineGun,
    Grenade,
}

impl EspWeaponType {
    /// The name shown for the group.
    pub open spec fn display_name_spec(self) -> Seq<char> {
        match self {
            EspWeaponType::Pistol => "Pistol"@,
            EspWeaponType::Shotgun => "Shotgun"@,
            EspWeaponType::SMG => "SMG"@,
            EspWeaponType::Rifle => "Rifle"@,
            EspWeaponType::SniperRifle => "Sniper Rifle"@,
            EspWeaponType::MachineGun => "Machine Gun"@,
            EspWeaponType::Grenade => "Grenade"@,
        }
    }

    /// The part of a configuration key that stands for the group.
    pub open spec fn config_key_spec(self) -> Seq<char> {
        match self {
            EspWeaponType::Pistol => "pistol"@,
            EspWeaponType::Shotgun => "shotgun"@,
            EspWeaponType::SMG => "smg"@,
            EspWeaponType::Rifle => "rifle"@,
            EspWeaponType::SniperRifle => "sniper-rifle"@,
            EspWeaponType::MachineGun => "machine-gun"@,
            EspWeaponType::Grenade => "grenade"@,
        }
    }

    /// The name shown for the group.
    pub fn display_name(&self) -> (name: String)
        ensures
            name@ == self.display_name_spec(),
    {
        match self {
            EspWeaponType::Pistol => "Pistol",
            EspWeaponType::Shotgun => "Shotgun",
            EspWeaponType::SMG => "SMG",
            EspWeaponType::Rifle => "Rifle",
            EspWeaponType::SniperRifle => "Sniper Rifle",
            EspWeaponType::MachineGun => "Machine Gun",
            EspWeaponType::Grenade => "Grenade",
        }.to_owned()
    }

    /// The part of a configuration key that stands for the group.
    pub fn config_key(&self) -> (key: &'static str)
        ensures
            key@ == self.config_key_spec(),
    {
        match self {
            EspWeaponType::Pistol => "pistol",
            EspWeaponType::Shotgun => "shotgun",
            EspWeaponType::SMG => "smg",
            EspWeaponType::Rifle => "rifle",
            EspWeaponType::SniperRifle => "sniper-rifle",
            EspWeaponType::MachineGun => "machine-gun",
            EspWeaponType::Grenade => "grenade",
        }
    }
}

/// A weapon as a selector names it: its number, the name that keys its
/// configuration, and the name shown for it.
#[derive(Clone, Copy, Debug, PartialEq)]
pub struct WeaponId {
    pub id: u16,
    pub name: &'static str,
    pub display_name: &'static str,
}

/// What a display configuration applies to. Selectors form a tree: a
/// configuration that is missing for a selector is looked up at its parent.
#[derive(Clone, Copy, Debug, PartialEq)]
pub enum EspSelector {
    Unset,
    Player,
    PlayerTeam { enemy: bool },
    PlayerTeamVisibility { enemy: bool, visible: bool },
    Chicken,
    Weapon,
    WeaponGroup { group: EspWeaponType },
    WeaponSingle { group: EspWeaponType, target: WeaponId },
}

/// The word for a team in a configuration key.
pub open spec fn team_word(enemy: bool) -> Seq<char> {
    if enemy {
        "enemy"@
    } else {
        "friendly"@
    }
}

/// The word for being seen or not in a configuration key.
pub open spec fn visibility_word(visible: bool) -> Seq<char> {
    if visible {
        "visible"@
    } else {
        "occluded"@
    }
}

impl EspSelector {
    /// The key under which the configuration for the selector is stored.
    pub open spec fn config_key_spec(self) -> Seq<char> {
        match self {
            EspSelector::Unset => "invalid"@,
            EspSelector::Player => "player"@,
            EspSelector::PlayerTeam { enemy } => "player."@ + team_word(enemy),
            EspSelector::PlayerTeamVisibility { enemy, visible } => "player."@ + team_word(enemy)
                + "."@ + visibility_word(visible),
            EspSelector::Chicken => "chicken"@,
            EspSelector::Weapon => "weapon"@,
            EspSelector::WeaponGroup { group } => "weapon."@ + group.config_key_spec(),
            EspSelector::WeaponSingle { group, target } => "weapon."@ + group.config_key_spec()
                + "."@ + target.name@,
        }
    }

    /// The name shown for the selector.
    pub open spec fn config_display_spec(self) -> Seq<char> {
        match self {
            EspSelector::Unset => "None"@,
            EspSelector::Player => "Player"@,
            EspSelector::PlayerTeam { enemy } => if enemy {
                "Enemy"@
            } else {
                "Friendly"@
            },
            EspSelector::PlayerTeamVisibility { enemy, visible } => if visible {
                "Visible"@
            } else {
                "Occluded"@
            },
            EspSelector::Chicken => "Chicken"@,
            EspSelector::Weapon => "Weapons"@,
            EspSelector::WeaponGroup { group } => group.display_name_spec(),
            EspSelector::WeaponSingle { group, target } => target.display_name@,
        }
    }

    /// The selector whose configuration applies where this one has none.
    pub open spec fn parent_spec(self) -> Option<EspSelector> {
        match self {
            EspSelector::Unset => None,
            EspSelector::Player => None,
            EspSelector::PlayerTeam { enemy } => Some(EspSelector::Player),
            EspSelector::PlayerTeamVisibility { enemy, visible } => Some(
                EspSelector::PlayerTeam { enemy },
            ),
            EspSelector::Chicken => None,
            EspSelector::Weapon => None,
            EspSelector::WeaponGroup { group } => Some(EspSelector::Weapon),
            EspSelector::WeaponSingle { group, target } => Some(EspSelector::WeaponGroup { group }),
        }
    }

    /// The heading of the selector's configuration.
    pub open spec fn config_title_spec(self) -> Seq<char> {
        match self {
            EspSelector::Unset => "ESP Configuration"@,
            EspSelector::Player => "Enabled ESP for all players"@,
            EspSelector::PlayerTeam { enemy } => "Enabled ESP for "@ + team_word(enemy)
                + " players"@,
            EspSelector::PlayerTeamVisibility { enemy, visible } => "Enabled ESP for "@
                + visibility_word(visible) + " "@ + team_word(enemy) + " players"@,
            EspSelector::Chicken => "Enabled ESP for chickens"@,
            EspSelector::Weapon => "Enabled ESP for all weapons"@,
            EspSelector::WeaponGroup { group } => "Enabled ESP for "@ + lowercase(
                group.display_name_spec(),
            ),
            EspSelector::WeaponSingle { group, target } => "Enabled ESP for weapon "@
                + target.display_name@,
        }
    }

    /// How many steps lead from the selector up to a root of the tree.
    pub open spec fn depth(self) -> nat {
        match self {
            EspSelector::Unset => 0,
            EspSelector::Player => 0,
            EspSelector::PlayerTeam { enemy } => 1,
            EspSelector::PlayerTeamVisibility { enemy, visible } => 2,
            EspSelector::Chicken => 0,
            EspSelector::Weapon => 0,
            EspSelector::WeaponGroup { group } => 1,
            EspSelector::WeaponSingle { group, target } => 2,
        }
    }

    /// The key under which the configuration for the selector is stored.
    pub fn config_key(&self) -> (key: String)
        ensures
            key@ == self.config_key_spec(),
    {
        match self {
            EspSelector::Unset => "invalid".to_owned(),
            EspSelector::Player => "player".to_owned(),
            EspSelector::PlayerTeam { enemy } => {
                concat("player.", if *enemy {
                    "enemy"
                } else {
                    "friendly"
                })
            },
            EspSelector::PlayerTeamVisibility { enemy, visible } => {
                let team = concat("player.", if *enemy {
                    "enemy"
                } else {
                    "friendly"
                });
                let dotted = concat(team.as_str(), ".");
                concat(dotted.as_str(), if *visible {
                    "visible"
                } else {
                    "occluded"
                })
            },
            EspSelector::Chicken => "chicken".to_owned(),
            EspSelector::Weapon => "weapon".to_owned(),
            EspSelector::WeaponGroup { group } => concat("weapon.", group.config_key()),
            EspSelector::WeaponSingle { group, target } => {
                let grouped = concat("weapon.", group.config_key());
                let dotted = concat(grouped.as_str(), ".");
                concat(dotted.as_str(), target.name)
            },
        }
    }

    /// The heading of the selector's configuration.
    pub fn config_title(&self) -> (title: String)
        ensures
            title@ == self.config_title_spec(),
    {
        match self {
            EspSelector::Unset => "ESP Configuration".to_owned(),
            EspSelector::Player => "Enabled ESP for all players".to_owned(),
            EspSelector::PlayerTeam { enemy } => {
                let start = concat("Enabled ESP for ", if *enemy {
                    "enemy"
                } else {
                    "friendly"
                });
                concat(start.as_str(), " players")
            },
            EspSelector::PlayerTeamVisibility { enemy, visible } => {
                let start = concat("Enabled ESP for ", if *visible {
                    "visible"
                } else {
                    "occluded"
                });
                let spaced = concat(start.as_str(), " ");
                let named = concat(spaced.as_str(), if *enemy {
                    "enemy"
                } else {
                    "friendly"
                });
                concat(named.as_str(), " players")
            },
            EspSelector::Chicken => "Enabled ESP for chickens".to_owned(),
            EspSelector::Weapon => "Enabled ESP for all weapons".to_owned(),
            EspSelector::WeaponGroup { group } => {
                let name = group.display_name();
                let lower = to_lowercase(name.as_str());
                concat("Enabled ESP for ", lower.as_str())
            },
            EspSelector::WeaponSingle { group: _, target } => concat(
                "Enabled ESP for weapon ",
                target.display_name,
            ),
        }
    }

    /// The name shown for the selector.
    pub fn config_display(&self) -> (name: String)
        ensures
            name@ == self.config_display_spec(),
    {
        match self {
            EspSelector::Unset => "None".to_owned(),
            EspSelector::Player => "Player".to_owned(),
            EspSelector::PlayerTeam { enemy } => {
                if *enemy {
                    "Enemy".to_owned()
                } else {
                    "Friendly".to_owned()
                }
            },
            EspSelector::PlayerTeamVisibility { enemy: _, visible } => {
                if *visible {
                    "Visible".to_owned()
                } else {
                    "Occluded".to_owned()
                }
            },
            EspSelector::Chicken => "Chicken".to_owned(),
            EspSelector::Weapon => "Weapons".to_owned(),
            EspSelector::WeaponGroup { group } => group.display_name(),
            EspSelector::WeaponSingle { group: _, target } => target.display_name.to_owned(),
        }
    }

    /// The selector whose configuration applies where this one has none.
    pub fn parent(&self) -> (p: Option<EspSelector>)
        ensures
            p == self.parent_spec(),
            p is Some ==> p->0.depth() + 1 == self.depth(),
            p is None <==> self.depth() == 0,
    {
        match self {
            EspSelector::Unset => None,
            EspSelector::Player => None,
            EspSelector::PlayerTeam { enemy: _ } => Some(EspSelector::Player),
            EspSelector::PlayerTeamVisibility { enemy, visible: _ } => Some(
                EspSelector::PlayerTeam { enemy: *enemy },
            ),
            EspSelector::Chicken => None,
            EspSelector::Weapon => None,
            EspSelector::WeaponGroup { group: _ } => Some(EspSelector::Weapon),
            EspSelector::WeaponSingle { group, target: _ } => Some(
                EspSelector::WeaponGroup { group: *group },
            ),
        }
    }
}

} // verus!
