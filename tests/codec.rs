use moonshot::building::BuildingType;
use moonshot::codec::{
    decode_action, decode_turn, encode_action, encode_turn, Aura, CodecError, PlayerAction,
    ServerTurn, Vec2Bits,
};

fn vec2(x: f32, y: f32) -> Vec2Bits {
    Vec2Bits { x: x.to_bits(), y: y.to_bits() }
}

fn sample_actions() -> Vec<PlayerAction> {
    vec![
        PlayerAction::Build { building: BuildingType::Mining, moon: 0 },
        PlayerAction::Build { building: BuildingType::Production, moon: u32::MAX },
        PlayerAction::ChangeAura { aura: None, planet: 12 },
        PlayerAction::ChangeAura { aura: Some(Aura::MoonSpeed), planet: 1 },
        PlayerAction::ChangeAura { aura: Some(Aura::ProductionSpeed), planet: 2 },
        PlayerAction::ChangeAura { aura: Some(Aura::RocketDamage), planet: 3 },
        PlayerAction::ChangeAura { aura: Some(Aura::RocketSpeed), planet: 4 },
        PlayerAction::ChangeAura { aura: Some(Aura::Shield), planet: 5 },
        PlayerAction::ShootRocket { pos: vec2(1.0, 1.0), dir: vec2(5.0, 5.0) },
        PlayerAction::ShootRocket { pos: vec2(-3.5, 0.25), dir: vec2(f32::NAN, f32::INFINITY) },
    ]
}

#[test]
fn action_round_trip_all_variants() {
    for a in sample_actions() {
        let bytes = encode_action(&a);
        assert_eq!(decode_action(&bytes), Ok(a));
    }
}

#[test]
fn build_encoding_exact_bytes() {
    let a = PlayerAction::Build { building: BuildingType::Production, moon: 7 };
    assert_eq!(encode_action(&a), vec![0, 0, 0, 0, 1, 0, 0, 0, 7, 0, 0, 0]);
}

#[test]
fn change_aura_encoding_exact_bytes() {
    let none = PlayerAction::ChangeAura { aura: None, planet: 258 };
    assert_eq!(encode_action(&none), vec![1, 0, 0, 0, 0, 2, 1, 0, 0]);
    let some = PlayerAction::ChangeAura { aura: Some(Aura::Shield), planet: 3 };
    assert_eq!(encode_action(&some), vec![1, 0, 0, 0, 1, 4, 0, 0, 0, 3, 0, 0, 0]);
}

#[test]
fn shoot_rocket_encoding_is_twenty_bytes() {
    let a = PlayerAction::ShootRocket { pos: vec2(1.0, 1.0), dir: vec2(5.0, 5.0) };
    let bytes = encode_action(&a);
    assert_eq!(bytes.len(), 20);
    assert_eq!(&bytes[0..4], &[2, 0, 0, 0]);
    assert_eq!(&bytes[4..8], &1.0f32.to_le_bytes());
    assert_eq!(&bytes[16..20], &5.0f32.to_le_bytes());
}

#[test]
fn encoding_matches_bincode_layout() {
    let build = PlayerAction::Build { building: BuildingType::Production, moon: 7 };
    assert_eq!(encode_action(&build), bincode::serialize(&(0u32, 1u32, 7u32)).unwrap());

    let aura = PlayerAction::ChangeAura { aura: Some(Aura::RocketSpeed), planet: 9 };
    assert_eq!(encode_action(&aura), bincode::serialize(&(1u32, Some(3u32), 9u32)).unwrap());

    let no_aura = PlayerAction::ChangeAura { aura: None, planet: 9 };
    assert_eq!(encode_action(&no_aura), bincode::serialize(&(1u32, None::<u32>, 9u32)).unwrap());

    let rocket = PlayerAction::ShootRocket { pos: vec2(1.0, 2.0), dir: vec2(0.5, -0.5) };
    assert_eq!(
        encode_action(&rocket),
        bincode::serialize(&(2u32, 1.0f32, 2.0f32, 0.5f32, -0.5f32)).unwrap()
    );

    let turn = ServerTurn::new(vec![build, no_aura]);
    let expected = bincode::serialize(&(2u64, (0u32, 1u32, 7u32), (1u32, None::<u32>, 9u32))).unwrap();
    assert_eq!(encode_turn(&turn), Ok(expected));
}

#[test]
fn turn_round_trip_keeps_order() {
    let actions = sample_actions();
    let turn = ServerTurn::new(actions.clone());
    let bytes = encode_turn(&turn).unwrap();
    let back = decode_turn(&bytes).unwrap();
    assert_eq!(back.actions(), &actions);
}

#[test]
fn empty_turn_round_trip() {
    let turn = ServerTurn::new(Vec::new());
    let bytes = encode_turn(&turn).unwrap();
    assert_eq!(bytes, vec![0; 8]);
    assert_eq!(decode_turn(&bytes).unwrap().into_actions(), Vec::new());
}

#[test]
fn decode_rejects_truncated_action() {
    let a = PlayerAction::ShootRocket { pos: vec2(1.0, 1.0), dir: vec2(5.0, 5.0) };
    let bytes = encode_action(&a);
    for cut in 0..bytes.len() {
        assert_eq!(decode_action(&bytes[..cut]), Err(CodecError::DecodeError));
    }
}

#[test]
fn decode_rejects_trailing_bytes() {
    let mut bytes = encode_action(&PlayerAction::ChangeAura { aura: None, planet: 1 });
    bytes.push(0);
    assert_eq!(decode_action(&bytes), Err(CodecError::DecodeError));
}

#[test]
fn decode_rejects_unknown_tags() {
    assert_eq!(decode_action(&[3, 0, 0, 0]), Err(CodecError::DecodeError));
    assert_eq!(
        decode_action(&[0, 0, 0, 0, 2, 0, 0, 0, 7, 0, 0, 0]),
        Err(CodecError::DecodeError)
    );
    assert_eq!(
        decode_action(&[1, 0, 0, 0, 1, 5, 0, 0, 0, 3, 0, 0, 0]),
        Err(CodecError::DecodeError)
    );
    assert_eq!(decode_action(&[1, 0, 0, 0, 2, 3, 0, 0, 0]), Err(CodecError::DecodeError));
}

#[test]
fn decode_turn_rejects_wrong_count() {
    let turn = ServerTurn::new(vec![PlayerAction::ChangeAura { aura: None, planet: 1 }]);
    let mut bytes = encode_turn(&turn).unwrap();
    bytes[0] = 2;
    assert!(matches!(decode_turn(&bytes), Err(CodecError::DecodeError)));
    bytes[0] = 0;
    assert!(matches!(decode_turn(&bytes), Err(CodecError::DecodeError)));
    assert!(matches!(decode_turn(&bytes[..5]), Err(CodecError::DecodeError)));
}

#[test]
fn decode_turn_rejects_huge_count() {
    let mut bytes = vec![0xff; 8];
    bytes.extend_from_slice(&encode_action(&PlayerAction::ChangeAura { aura: None, planet: 1 }));
    assert!(matches!(decode_turn(&bytes), Err(CodecError::DecodeError)));
}

#[test]
fn oversized_turn_is_refused() {
    // 3276 rockets take 8 + 3276 * 20 = 65528 bytes; one more does not fit.
    let rocket = PlayerAction::ShootRocket { pos: vec2(0.0, 0.0), dir: vec2(1.0, 0.0) };
    let fits = ServerTurn::new(vec![rocket; 3276]);
    assert_eq!(encode_turn(&fits).unwrap().len(), 65528);
    let too_big = ServerTurn::new(vec![rocket; 3277]);
    assert_eq!(encode_turn(&too_big), Err(CodecError::SerializationTooLarge));
}
