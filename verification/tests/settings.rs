use controller::enhancements::grenade_trajectory::{ActiveGrenadeType, GrenadeTrajectory};
use controller::enhancements::sniper_crosshair::SniperCrosshair;
use controller::enhancements::player::info_layout::LayoutAlignment;
use controller::enhancements::player::map_weapon_to_icon;
use controller::settings::config::{GrenadeSortOrder, GrenadeType, KeyToggleMode};
use controller::settings::esp::{
    Color, EspBoxType, EspColorType, EspHeadDot, EspHealthBar, EspInfoStyle, EspSelector,
    EspTextStyle, EspTracePosition, EspWeaponType, WeaponId,
};

const AWP: WeaponId = WeaponId { id: 9, name: "awp", display_name: "AWP" };

#[test]
fn grenade_kinds_have_names() {
    assert_eq!(GrenadeType::Smoke.display_name(), "Smoke");
    assert_eq!(GrenadeType::Molotov.display_name(), "Molotov");
    assert_eq!(GrenadeType::Flashbang.display_name(), "Flashbang");
    assert_eq!(GrenadeType::Explosive.display_name(), "Explosive");
    assert_eq!(GrenadeSortOrder::default(), GrenadeSortOrder::Alphabetical);
    assert_ne!(GrenadeSortOrder::default(), GrenadeSortOrder::AlphabeticalReverse);
    assert!(KeyToggleMode::AlwaysOn < KeyToggleMode::Off);
}

#[test]
fn weapon_groups_have_names_and_keys() {
    let all = [
        (EspWeaponType::Pistol, "Pistol", "pistol"),
        (EspWeaponType::Shotgun, "Shotgun", "shotgun"),
        (EspWeaponType::SMG, "SMG", "smg"),
        (EspWeaponType::Rifle, "Rifle", "rifle"),
        (EspWeaponType::SniperRifle, "Sniper Rifle", "sniper-rifle"),
        (EspWeaponType::MachineGun, "Machine Gun", "machine-gun"),
        (EspWeaponType::Grenade, "Grenade", "grenade"),
    ];
    for (group, name, key) in all {
        assert_eq!(group.display_name(), name);
        assert_eq!(group.config_key(), key);
    }
}

#[test]
fn selectors_have_keys() {
    assert_eq!(EspSelector::Unset.config_key(), "invalid");
    assert_eq!(EspSelector::Player.config_key(), "player");
    assert_eq!(EspSelector::PlayerTeam { enemy: true }.config_key(), "player.enemy");
    assert_eq!(EspSelector::PlayerTeam { enemy: false }.config_key(), "player.friendly");
    assert_eq!(
        EspSelector::PlayerTeamVisibility { enemy: true, visible: false }.config_key(),
        "player.enemy.occluded"
    );
    assert_eq!(
        EspSelector::PlayerTeamVisibility { enemy: false, visible: true }.config_key(),
        "player.friendly.visible"
    );
    assert_eq!(EspSelector::Chicken.config_key(), "chicken");
    assert_eq!(EspSelector::Weapon.config_key(), "weapon");
    assert_eq!(
        EspSelector::WeaponGroup { group: EspWeaponType::SniperRifle }.config_key(),
        "weapon.sniper-rifle"
    );
    assert_eq!(
        EspSelector::WeaponSingle { group: EspWeaponType::SniperRifle, target: AWP }.config_key(),
        "weapon.sniper-rifle.awp"
    );
}

#[test]
fn selectors_have_display_names() {
    assert_eq!(EspSelector::Unset.config_display(), "None");
    assert_eq!(EspSelector::Player.config_display(), "Player");
    assert_eq!(EspSelector::PlayerTeam { enemy: true }.config_display(), "Enemy");
    assert_eq!(EspSelector::PlayerTeam { enemy: false }.config_display(), "Friendly");
    assert_eq!(
        EspSelector::PlayerTeamVisibility { enemy: true, visible: true }.config_display(),
        "Visible"
    );
    assert_eq!(
        EspSelector::PlayerTeamVisibility { enemy: true, visible: false }.config_display(),
        "Occluded"
    );
    assert_eq!(EspSelector::Chicken.config_display(), "Chicken");
    assert_eq!(EspSelector::Weapon.config_display(), "Weapons");
    assert_eq!(
        EspSelector::WeaponGroup { group: EspWeaponType::MachineGun }.config_display(),
        "Machine Gun"
    );
    assert_eq!(
        EspSelector::WeaponSingle { group: EspWeaponType::SniperRifle, target: AWP }
            .config_display(),
        "AWP"
    );
}

#[test]
fn selectors_have_titles() {
    assert_eq!(EspSelector::Unset.config_title(), "ESP Configuration");
    assert_eq!(EspSelector::Player.config_title(), "Enabled ESP for all players");
    assert_eq!(
        EspSelector::PlayerTeam { enemy: true }.config_title(),
        "Enabled ESP for enemy players"
    );
    assert_eq!(
        EspSelector::PlayerTeamVisibility { enemy: false, visible: false }.config_title(),
        "Enabled ESP for occluded friendly players"
    );
    assert_eq!(EspSelector::Chicken.config_title(), "Enabled ESP for chickens");
    assert_eq!(EspSelector::Weapon.config_title(), "Enabled ESP for all weapons");
    assert_eq!(
        EspSelector::WeaponGroup { group: EspWeaponType::SniperRifle }.config_title(),
        "Enabled ESP for sniper rifle"
    );
    assert_eq!(
        EspSelector::WeaponSingle { group: EspWeaponType::SniperRifle, target: AWP }
            .config_title(),
        "Enabled ESP for weapon AWP"
    );
}

#[test]
fn selectors_lead_up_to_a_root() {
    let leaf = EspSelector::WeaponSingle { group: EspWeaponType::Rifle, target: AWP };
    let group = leaf.parent().unwrap();
    assert_eq!(group, EspSelector::WeaponGroup { group: EspWeaponType::Rifle });
    let root = group.parent().unwrap();
    assert_eq!(root, EspSelector::Weapon);
    assert_eq!(root.parent(), None);

    let seen = EspSelector::PlayerTeamVisibility { enemy: true, visible: false };
    assert_eq!(seen.parent(), Some(EspSelector::PlayerTeam { enemy: true }));
    assert_eq!(EspSelector::PlayerTeam { enemy: true }.parent(), Some(EspSelector::Player));
    assert_eq!(EspSelector::Player.parent(), None);
    assert_eq!(EspSelector::Chicken.parent(), None);
    assert_eq!(EspSelector::Unset.parent(), None);
}

#[test]
fn style_choices_compare() {
    assert!(EspHealthBar::Off != EspHealthBar::Left);
    assert!(EspBoxType::Box2D != EspBoxType::Box3D);
    assert!(EspTracePosition::TopLeft != EspTracePosition::BottomRight);
    assert!(EspHeadDot::Filled != EspHeadDot::NotFilled);
    assert!(EspInfoStyle::Text != EspInfoStyle::Icon);
    assert!(EspTextStyle::Shadow != EspTextStyle::Neon);
    assert!(EspColorType::Static != EspColorType::GradientVertical);
    assert!(LayoutAlignment::Right != LayoutAlignment::Bottom);
}

#[test]
fn colour_round_trips() {
    for v in [0u32, 1, 0xff, 0x1234_5678, 0xdead_beef, u32::MAX] {
        assert_eq!(Color::from_u8(Color::from_u32(v).as_u8()), Color::from_u32(v));
    }
    let mut c = Color::from_u32(0xffff_ffff);
    c.set_alpha_u8(0);
    assert_eq!(c, Color::from_u32(0x00ff_ffff));
}

#[test]
fn weapons_have_icons() {
    assert_eq!(map_weapon_to_icon("Knife (T)"), "knife_t");
    assert_eq!(map_weapon_to_icon("Desert Eagle"), "deagle");
    assert_eq!(map_weapon_to_icon("AK-47"), "ak47");
    assert_eq!(map_weapon_to_icon("M4A4"), "m4a1");
    assert_eq!(map_weapon_to_icon("M4A1-S"), "m4a1_silencer");
    assert_eq!(map_weapon_to_icon("SG 553"), "sg556");
    assert_eq!(map_weapon_to_icon("UMP-45"), "ump451");
    assert_eq!(map_weapon_to_icon("High Explosive Grenade"), "hegrenade");
    assert_eq!(map_weapon_to_icon("HE Grenade"), "hegrenade");
    assert_eq!(map_weapon_to_icon("Incendiary Grenade"), "incgrenade0");
    assert_eq!(map_weapon_to_icon("Bowie Knife"), "knife_survival_bowie");
    assert_eq!(map_weapon_to_icon("Survival Knife"), "knife_survival_bowie");
    assert_eq!(map_weapon_to_icon("C4 Explosive"), "c4");
    assert_eq!(map_weapon_to_icon("Zeus x27"), "taser");
    // what is not listed keeps its letters and digits
    assert_eq!(map_weapon_to_icon("Kukri Knife"), "kukriknife");
    assert_eq!(map_weapon_to_icon("MP-5 (new)"), "mp5new");
    assert_eq!(map_weapon_to_icon(""), "");
}

#[test]
fn level_is_chosen_by_the_settings_or_the_game() {
    let mut t = GrenadeTrajectory::new();
    // nothing known yet: the stand-in
    assert_eq!(t.select_map("Auto", None), Some("de_mirage".to_string()));
    assert_eq!(t.current_map_name, Some("de_mirage".to_string()));
    // still nothing known: keep what there is
    assert_eq!(t.select_map("Auto", None), None);
    assert_eq!(t.select_map("Auto", Some("de_mirage")), None);
    // the game reports another level
    assert_eq!(t.select_map("Auto", Some("de_dust2")), Some("de_dust2".to_string()));
    assert_eq!(t.select_map("Auto", Some("de_dust2")), None);
    assert_eq!(t.select_map("Auto", Some("<empty>")), None);
    assert_eq!(t.current_map_name, Some("de_dust2".to_string()));
    // the settings name a level
    assert_eq!(t.select_map("de_nuke", Some("de_dust2")), Some("de_nuke".to_string()));
    assert_eq!(t.select_map("de_nuke", None), None);
    assert_eq!(t.select_map("<empty>", None), None);
    assert_eq!(t.select_map("auto", None), Some("auto".to_string()));
}

#[test]
fn thrown_objects_are_known_by_their_numbers() {
    assert_eq!(ActiveGrenadeType::from_item(43), ActiveGrenadeType::Flash);
    assert_eq!(ActiveGrenadeType::from_item(44), ActiveGrenadeType::HE);
    assert_eq!(ActiveGrenadeType::from_item(45), ActiveGrenadeType::Smoke);
    assert_eq!(ActiveGrenadeType::from_item(46), ActiveGrenadeType::Molotov);
    assert_eq!(ActiveGrenadeType::from_item(47), ActiveGrenadeType::Decoy);
    assert_eq!(ActiveGrenadeType::from_item(48), ActiveGrenadeType::Molotov);
    assert_eq!(ActiveGrenadeType::from_item(49), ActiveGrenadeType::Unknown);
    assert_eq!(ActiveGrenadeType::from_item(0), ActiveGrenadeType::Unknown);
}

#[test]
fn rifles_with_a_scope_are_four() {
    let crosshair = SniperCrosshair::new();
    let scoped: Vec<u16> = (0..100).filter(|id| crosshair.is_sniper_weapon(*id)).collect();
    assert_eq!(scoped, vec![9, 11, 38, 40]);
}
