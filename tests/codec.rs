use ozelot::clientbound::{
    ClientboundPacket, ClientboundTabComplete, CombatEvent, Explosion, FacePlayer, MultiBlockChange,
    OpenWindow, Particle, PlayerAbilities, ScoreboardObjective, SelectAdvancementTab, Statistics,
    StopSound, Title, UnlockRecipes, UpdateScore,
};
use ozelot::serverbound::{
    AdvancementTab, RecipeBookData, ServerboundPacket, TabComplete, UseEntity,
};
use ozelot::wire::MAX_STRING_LEN;
use ozelot::ClientState;

fn cb_round_trip(p: ClientboundPacket) -> ClientboundPacket {
    let bytes = p.to_u8().unwrap();
    let q = ClientboundPacket::deserialize(&bytes, p.get_clientstate()).unwrap();
    assert_eq!(q.to_u8().unwrap(), bytes);
    assert_eq!(q.get_id(), p.get_id());
    q
}

fn sb_round_trip(p: ServerboundPacket) -> ServerboundPacket {
    let bytes = p.to_u8().unwrap();
    let q = ServerboundPacket::deserialize(&bytes, p.get_clientstate()).unwrap();
    assert_eq!(q.to_u8().unwrap(), bytes);
    q
}

#[test]
fn varint_laws() {
    let mut w = Vec::new();
    ozelot::write::write_varint(&0, &mut w).unwrap();
    assert_eq!(w, vec![0x00]);
    let mut w = Vec::new();
    ozelot::write::write_varint(&-1, &mut w).unwrap();
    assert_eq!(w, vec![0xFF, 0xFF, 0xFF, 0xFF, 0x0F]);
    let mut w = Vec::new();
    ozelot::write::write_varlong(&-1, &mut w).unwrap();
    assert_eq!(w, vec![0xFF, 0xFF, 0xFF, 0xFF, 0xFF, 0xFF, 0xFF, 0xFF, 0xFF, 0x01]);
    for i in [0, 1, -1, 127, 128, i32::MAX, i32::MIN, 123456789] {
        let mut w = Vec::new();
        ozelot::write::write_varint(&i, &mut w).unwrap();
        let mut rd = ozelot::reader::Reader::new(w);
        assert_eq!(ozelot::read::read_varint(&mut rd).unwrap(), i);
        assert_eq!(rd.len(), 0);
    }
}

#[test]
fn long_encodings_rejected() {
    let mut rd = ozelot::reader::Reader::from_slice(&[0x80, 0x80, 0x80, 0x80, 0x80, 0x00]);
    assert!(ozelot::read::read_varint(&mut rd).is_err());
    let mut rd = ozelot::reader::Reader::from_slice(&[0x80; 11]);
    assert!(ozelot::read::read_varlong(&mut rd).is_err());
    let mut rd = ozelot::reader::Reader::from_slice(&[0x80, 0x80]);
    assert!(ozelot::read::read_varint(&mut rd).is_err());
}

#[test]
fn string_length_limit() {
    let mut w = Vec::new();
    ozelot::write::write_varint(&(MAX_STRING_LEN + 1), &mut w).unwrap();
    w.extend(std::iter::repeat(b'a').take(MAX_STRING_LEN as usize + 1));
    let mut rd = ozelot::reader::Reader::new(w);
    assert!(ozelot::read::read_String(&mut rd).is_err());
    let mut w = Vec::new();
    let s = "a".repeat(MAX_STRING_LEN as usize);
    ozelot::write::write_String(&s, &mut w).unwrap();
    assert_eq!(&w[..3], &[0x80, 0x80, 0x02]);
    let mut rd = ozelot::reader::Reader::new(w);
    assert_eq!(ozelot::read::read_String(&mut rd).unwrap(), s);
}

#[test]
fn position_out_of_range() {
    let mut w = Vec::new();
    assert!(ozelot::write::write_position(&(1 << 25, 0, 0), &mut w).is_err());
    assert!(ozelot::write::write_position(&(0, -(1 << 11) - 1, 0), &mut w).is_err());
    assert!(w.is_empty());
    ozelot::write::write_position(&(-(1 << 25), (1 << 11) - 1, (1 << 25) - 1), &mut w).unwrap();
    let mut rd = ozelot::reader::Reader::new(w);
    assert_eq!(ozelot::read::read_position(&mut rd).unwrap(), (-(1 << 25), (1 << 11) - 1, (1 << 25) - 1));
}

#[test]
fn bool_must_be_zero_or_one() {
    let mut rd = ozelot::reader::Reader::from_slice(&[2]);
    assert!(ozelot::read::read_bool(&mut rd).is_err());
}

#[test]
fn clientbound_round_trips() {
    cb_round_trip(ClientboundPacket::Statistics(Statistics {
        values: vec![("a".to_string(), 1), ("b".to_string(), -2)],
    }));
    cb_round_trip(ClientboundPacket::ClientboundTabComplete(ClientboundTabComplete {
        transaction_id: 1,
        start: 2,
        length: 3,
        matches: vec![("x".to_string(), None), ("y".to_string(), Some("tip".to_string()))],
    }));
    match cb_round_trip(ClientboundPacket::MultiBlockChange(MultiBlockChange {
        chunk_x: -1,
        chunk_z: 5,
        changes: vec![(15, 64, 3, 9), (0, 0, 0, 0)],
    })) {
        ClientboundPacket::MultiBlockChange(m) => assert_eq!(m.changes, vec![(15, 64, 3, 9), (0, 0, 0, 0)]),
        _ => panic!(),
    }
    match cb_round_trip(ClientboundPacket::OpenWindow(OpenWindow {
        window_id: 1,
        window_type: "EntityHorse".to_string(),
        window_title: "t".to_string(),
        number_of_slots: 2,
        entity_id: Some(77),
    })) {
        ClientboundPacket::OpenWindow(o) => assert_eq!(o.entity_id, Some(77)),
        _ => panic!(),
    }
    cb_round_trip(ClientboundPacket::OpenWindow(OpenWindow {
        window_id: 1,
        window_type: "minecraft:chest".to_string(),
        window_title: "t".to_string(),
        number_of_slots: 27,
        entity_id: None,
    }));
    cb_round_trip(ClientboundPacket::Explosion(Explosion {
        x: 1.5f32.to_bits(),
        y: 2.0f32.to_bits(),
        z: 3.0f32.to_bits(),
        radius: 4.0f32.to_bits(),
        affected_blocks: vec![(1, -1, 0)],
        motion_x: 0,
        motion_y: 0,
        motion_z: 0,
    }));
    cb_round_trip(ClientboundPacket::Particle(Particle {
        particle_id: 36,
        use_long_distance: true,
        x: 1.0f64.to_bits(),
        y: 2.0f64.to_bits(),
        z: 3.0f64.to_bits(),
        offset_x: 0,
        offset_y: 0,
        offset_z: 0,
        particle_data: 0,
        count: 3,
        data: vec![1, 2, 3],
    }));
    for (event, d, e, m) in [(0, None, None, None), (1, Some(5), Some(6), None), (2, Some(5), Some(6), Some("dead".to_string()))] {
        cb_round_trip(ClientboundPacket::CombatEvent(CombatEvent { event, duration_playerid: d, entity_id: e, message: m }));
    }
    cb_round_trip(ClientboundPacket::ScoreboardObjective(ScoreboardObjective {
        name: "n".to_string(),
        mode: 0,
        value: Some("v".to_string()),
        objective_type: Some("integer".to_string()),
    }));
    cb_round_trip(ClientboundPacket::ScoreboardObjective(ScoreboardObjective { name: "n".to_string(), mode: 1, value: None, objective_type: None }));
    cb_round_trip(ClientboundPacket::UpdateScore(UpdateScore { name: "n".to_string(), action: 1, objective_name: "o".to_string(), value: None }));
    cb_round_trip(ClientboundPacket::UpdateScore(UpdateScore { name: "n".to_string(), action: 0, objective_name: "o".to_string(), value: Some(3) }));
    cb_round_trip(ClientboundPacket::Title(Title { action: 0, text: Some("hi".to_string()), times: None }));
    cb_round_trip(ClientboundPacket::Title(Title { action: 3, text: None, times: Some((1, 2, 3)) }));
    cb_round_trip(ClientboundPacket::Title(Title { action: 4, text: None, times: None }));
    cb_round_trip(ClientboundPacket::FacePlayer(FacePlayer { feet_or_eyes: 1, x: 0, y: 0, z: 0, entity_id: Some(3), entity_feet_or_eyes: Some(0) }));
    cb_round_trip(ClientboundPacket::FacePlayer(FacePlayer { feet_or_eyes: 1, x: 0, y: 0, z: 0, entity_id: None, entity_feet_or_eyes: None }));
    match cb_round_trip(ClientboundPacket::UnlockRecipes(UnlockRecipes {
        action: 0,
        crafting_book_open: true,
        crafting_book_filter: false,
        smelting_book_open: true,
        smelting_book_filter: false,
        recipes: vec!["a".to_string()],
        recipes2: vec!["b".to_string(), "c".to_string()],
    })) {
        ClientboundPacket::UnlockRecipes(u) => assert_eq!(u.recipes2, vec!["b".to_string(), "c".to_string()]),
        _ => panic!(),
    }
    cb_round_trip(ClientboundPacket::SelectAdvancementTab(SelectAdvancementTab { identifier: Some("story/root".to_string()) }));
    cb_round_trip(ClientboundPacket::SelectAdvancementTab(SelectAdvancementTab { identifier: None }));
    cb_round_trip(ClientboundPacket::StopSound(StopSound { flags: 3, source: Some(2), sound: Some("s".to_string()) }));
    cb_round_trip(ClientboundPacket::StopSound(StopSound { flags: 0, source: None, sound: None }));
}

#[test]
fn serverbound_round_trips() {
    sb_round_trip(ServerboundPacket::TabComplete(TabComplete { text: "/he".to_string(), assume_command: false, looked_at_block: Some(42) }));
    sb_round_trip(ServerboundPacket::TabComplete(TabComplete { text: "/he".to_string(), assume_command: true, looked_at_block: None }));
    for (action, loc, hand) in [(0, None, Some(0)), (1, None, None), (2, Some((1, 2, 3)), Some(1))] {
        sb_round_trip(ServerboundPacket::UseEntity(UseEntity { target: 9, action, location: loc, hand }));
    }
    sb_round_trip(ServerboundPacket::RecipeBookData(RecipeBookData { displayed_recipe: Some("r".to_string()), recipe_book_states: None }));
    sb_round_trip(ServerboundPacket::RecipeBookData(RecipeBookData { displayed_recipe: None, recipe_book_states: Some((true, false, true, false)) }));
    sb_round_trip(ServerboundPacket::AdvancementTab(AdvancementTab { tab_id: Some("t".to_string()) }));
    sb_round_trip(ServerboundPacket::AdvancementTab(AdvancementTab { tab_id: None }));
}

#[test]
fn use_entity_hand_follows_the_reference() {
    let bytes = ServerboundPacket::UseEntity(UseEntity { target: 1, action: 2, location: Some((0, 0, 0)), hand: Some(1) })
        .to_u8()
        .unwrap();
    assert_eq!(bytes, vec![0x0d, 1, 2, 0, 0, 0, 0, 0, 0, 0, 0, 0, 0, 0, 0, 1]);
    assert!(ServerboundPacket::UseEntity(UseEntity { target: 1, action: 1, location: None, hand: Some(0) }).to_u8().is_err());
}

#[test]
fn select_advancement_tab_length_cap() {
    let long = "a".repeat(32768);
    assert!(ClientboundPacket::SelectAdvancementTab(SelectAdvancementTab { identifier: Some(long) }).to_u8().is_err());
}

#[test]
fn invalid_discriminants_are_malformed() {
    assert!(ClientboundPacket::deserialize(&[0x2f, 3], ClientState::Play).is_err());
    assert!(ServerboundPacket::deserialize(&[0x1e, 2], ClientState::Play).is_err());
    assert!(ServerboundPacket::deserialize(&[0x1b, 5], ClientState::Play).is_err());
}

#[test]
fn player_abilities_flags() {
    let p = PlayerAbilities { flags: 0x05, flying_speed: 0, field_of_view: 0 };
    assert!(p.is_invulnerable());
    assert!(!p.is_flying());
    assert!(p.allow_flying());
    assert!(!p.is_creative());
}

#[test]
fn names_and_states() {
    assert_eq!(ClientState::Play.name(), "Play");
    let p = ClientboundPacket::Title(Title { action: 4, text: None, times: None });
    assert_eq!(p.get_packet_name(), "Title");
    assert_eq!(p.get_clientstate(), ClientState::Play);
    assert_eq!(p.get_id(), 0x4b);
}

#[test]
fn session_join_request() {
    let j = ozelot::mojang::SessionJoin::new("tok".to_string(), "uuid".to_string(), "jeb_", &[], &[]);
    assert_eq!(j.serverId, "-7c9d5b0044c130109a5d7b5fb5c317c02b4e28c1");
    assert_eq!(ozelot::mojang::SessionJoin::get_endpoint(), "https://sessionserver.mojang.com/session/minecraft/join");
    let s = ozelot::mojang::Statistics::minecraft();
    assert!(s.item_sold_minecraft && !s.item_sold_cobalt);
    assert!(!ozelot::mojang::always_false());
}
