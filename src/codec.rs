//! The wire codec: player actions and server turns to and from bytes.
//!
//! Every value is written as its variant tag followed by its fields in
//! declaration order. Tags, identifiers and vector components are 32-bit
//! little-endian words, an optional value is a one-byte presence flag followed
//! by the value, and the action list of a turn is preceded by its length as a
//! 64-bit little-endian word.
use vstd::arithmetic::div_mod::{lemma_fundamental_div_mod, lemma_fundamental_div_mod_converse};
use vstd::prelude::*;

use crate::building::BuildingType;

verus! {

/// The largest payload, in bytes, that a frame can carry.
pub const MAX_PAYLOAD_LEN: usize = 65535;

/// Auras that a player can put on a planet.
#[derive(Clone, Copy, Debug, PartialEq, Eq, Structural)]
pub enum Aura {
    MoonSpeed,
    ProductionSpeed,
    RocketDamage,
    RocketSpeed,
    Shield,
}

/// A 2D vector of two `f32` components, each held as its IEEE-754 bit pattern.
///
/// The transport never computes with the components; it only carries them.
#[derive(Clone, Copy, Debug, PartialEq, Eq, Structural)]
pub struct Vec2Bits {
    pub x: u32,
    pub y: u32,
}

/// Player issued actions in the game which need to be processed through the server.
#[derive(Clone, Copy, Debug, PartialEq, Eq, Structural)]
pub enum PlayerAction {
    Build { building: BuildingType, moon: u32 },
    ChangeAura { aura: Option<Aura>, planet: u32 },
    ShootRocket { pos: Vec2Bits, dir: Vec2Bits },
}

/// A single frame of the server's simulation: the player actions that are
/// executed on that frame, in order.
#[derive(Debug)]
pub struct ServerTurn {
    actions: Vec<PlayerAction>,
}

/// Why a value could not be encoded or decoded.
#[derive(Clone, Copy, Debug, PartialEq, Eq, Structural)]
pub enum CodecError {
    /// The encoding would not fit in one frame.
    SerializationTooLarge,
    /// The bytes are not the encoding of a value: truncated, trailing bytes,
    /// or an unknown tag.
    DecodeError,
}

impl View for ServerTurn {
    type V = Seq<PlayerAction>;

    closed spec fn view(&self) -> Seq<PlayerAction> {
        self.actions@
    }
}

impl ServerTurn {
    pub fn new(actions: Vec<PlayerAction>) -> (r: Self)
        ensures
            r@ == actions@,
    {
        ServerTurn { actions }
    }

    /// The actions of the turn, in order.
    pub fn actions(&self) -> (r: &Vec<PlayerAction>)
        ensures
            r@ == self@,
    {
        &self.actions
    }

    /// Takes the turn apart into its actions.
    pub fn into_actions(self) -> (r: Vec<PlayerAction>)
        ensures
            r@ == self@,
    {
        self.actions
    }
}

// ---------------------------------------------------------------------------
// The encoding
// ---------------------------------------------------------------------------

/// The low byte of `v`.
pub open spec fn byte_of(v: int) -> u8 {
    (v % 256) as u8
}

/// The four low bytes of `v`, least significant first.
pub open spec fn le4(v: int) -> Seq<u8> {
    seq![byte_of(v), byte_of(v / 256), byte_of(v / 256 / 256), byte_of(v / 256 / 256 / 256)]
}

/// A 32-bit word, little-endian.
pub open spec fn le32(x: u32) -> Seq<u8> {
    le4(x as int)
}

/// A 64-bit word, little-endian: its low half, then its high half.
pub open spec fn le64(x: u64) -> Seq<u8> {
    let v = x as int;
    le4(v % 0x1_0000_0000) + le4(v / 0x1_0000_0000)
}

pub open spec fn building_tag(b: BuildingType) -> u32 {
    match b {
        BuildingType::Mining => 0,
        BuildingType::Production => 1,
    }
}

pub open spec fn aura_tag(a: Aura) -> u32 {
    match a {
        Aura::MoonSpeed => 0,
        Aura::ProductionSpeed => 1,
        Aura::RocketDamage => 2,
        Aura::RocketSpeed => 3,
        Aura::Shield => 4,
    }
}

pub open spec fn option_aura_bytes(a: Option<Aura>) -> Seq<u8> {
    match a {
        None => seq![0u8],
        Some(x) => seq![1u8] + le32(aura_tag(x)),
    }
}

/// The bytes of one action.
pub open spec fn action_bytes(a: PlayerAction) -> Seq<u8> {
    match a {
        PlayerAction::Build { building, moon } => le32(0) + le32(building_tag(building)) + le32(
            moon,
        ),
        PlayerAction::ChangeAura { aura, planet } => le32(1) + option_aura_bytes(aura) + le32(
            planet,
        ),
        PlayerAction::ShootRocket { pos, dir } => le32(2) + le32(pos.x) + le32(pos.y) + le32(dir.x)
            + le32(dir.y),
    }
}

/// The bytes of a sequence of actions, one after another.
pub open spec fn actions_bytes(s: Seq<PlayerAction>) -> Seq<u8>
    decreases s.len(),
{
    if s.len() == 0 {
        Seq::empty()
    } else {
        action_bytes(s[0]) + actions_bytes(s.drop_first())
    }
}

/// The bytes of a turn: the number of actions, then the actions.
pub open spec fn turn_bytes(s: Seq<PlayerAction>) -> Seq<u8> {
    le64(s.len() as u64) + actions_bytes(s)
}

// ---------------------------------------------------------------------------
// Parsing
// ---------------------------------------------------------------------------

/// The number that the four bytes of `s` from offset `i` encode,
/// little-endian.
pub open spec fn word_at(s: Seq<u8>, i: int) -> int {
    s[i] + 256 * (s[i + 1] + 256 * (s[i + 2] + 256 * s[i + 3]))
}

pub open spec fn read_u32(s: Seq<u8>, i: int) -> u32 {
    word_at(s, i) as u32
}

pub open spec fn read_u64(s: Seq<u8>, i: int) -> u64 {
    (word_at(s, i) + 0x1_0000_0000 * word_at(s, i + 4)) as u64
}

pub open spec fn building_of_tag(t: u32) -> Option<BuildingType> {
    if t == 0 {
        Some(BuildingType::Mining)
    } else if t == 1 {
        Some(BuildingType::Production)
    } else {
        None
    }
}

pub open spec fn aura_of_tag(t: u32) -> Option<Aura> {
    if t == 0 {
        Some(Aura::MoonSpeed)
    } else if t == 1 {
        Some(Aura::ProductionSpeed)
    } else if t == 2 {
        Some(Aura::RocketDamage)
    } else if t == 3 {
        Some(Aura::RocketSpeed)
    } else if t == 4 {
        Some(Aura::Shield)
    } else {
        None
    }
}

/// The action whose encoding starts at offset `i` of `s`, with the offset just
/// past it; `None` where no action's encoding starts there.
pub open spec fn parse_action_at(s: Seq<u8>, i: int) -> Option<(PlayerAction, int)> {
    if i < 0 || i + 4 > s.len() {
        None
    } else {
        let tag = read_u32(s, i);
        if tag == 0 {
            if i + 12 > s.len() {
                None
            } else {
                match building_of_tag(read_u32(s, i + 4)) {
                    Some(b) => Some((PlayerAction::Build { building: b, moon: read_u32(s, i + 8) }, i + 12)),
                    None => None,
                }
            }
        } else if tag == 1 {
            if i + 5 > s.len() {
                None
            } else if s[i + 4] == 0 {
                if i + 9 > s.len() {
                    None
                } else {
                    Some((PlayerAction::ChangeAura { aura: None, planet: read_u32(s, i + 5) }, i + 9))
                }
            } else if s[i + 4] == 1 {
                if i + 13 > s.len() {
                    None
                } else {
                    match aura_of_tag(read_u32(s, i + 5)) {
                        Some(a) => Some(
                            (PlayerAction::ChangeAura { aura: Some(a), planet: read_u32(s, i + 9) }, i + 13),
                        ),
                        None => None,
                    }
                }
            } else {
                None
            }
        } else if tag == 2 {
            if i + 20 > s.len() {
                None
            } else {
                Some(
                    (
                        PlayerAction::ShootRocket {
                            pos: Vec2Bits { x: read_u32(s, i + 4), y: read_u32(s, i + 8) },
                            dir: Vec2Bits { x: read_u32(s, i + 12), y: read_u32(s, i + 16) },
                        },
                        i + 20,
                    ),
                )
            }
        } else {
            None
        }
    }
}

/// The action that `s` encodes, with nothing left over.
pub open spec fn parse_action(s: Seq<u8>) -> Option<PlayerAction> {
    match parse_action_at(s, 0) {
        Some((a, j)) => if j == s.len() {
            Some(a)
        } else {
            None
        },
        None => None,
    }
}

/// `n` actions encoded one after another from offset `i` to the end of `s`.
pub open spec fn parse_actions_at(s: Seq<u8>, i: int, n: nat) -> Option<Seq<PlayerAction>>
    decreases n,
{
    if n == 0 {
        if i == s.len() {
            Some(Seq::empty())
        } else {
            None
        }
    } else {
        match parse_action_at(s, i) {
            Some((a, j)) => match parse_actions_at(s, j, (n - 1) as nat) {
                Some(rest) => Some(seq![a] + rest),
                None => None,
            },
            None => None,
        }
    }
}

/// The actions of the turn that `s` encodes, with nothing left over.
pub open spec fn parse_turn(s: Seq<u8>) -> Option<Seq<PlayerAction>> {
    if s.len() < 8 {
        None
    } else {
        parse_actions_at(s, 8, read_u64(s, 0) as nat)
    }
}

// ---------------------------------------------------------------------------
// Facts about the encoding
// ---------------------------------------------------------------------------

proof fn lemma_le_lens()
    ensures
        forall|x: u32| #[trigger] le32(x).len() == 4,
        forall|x: u64| #[trigger] le64(x).len() == 8,
{
}

proof fn lemma_join_byte(lo: int, hi: int)
    requires
        0 <= lo < 256,
        hi >= 0,
    ensures
        (lo + 256 * hi) % 256 == lo,
        (lo + 256 * hi) / 256 == hi,
{
    lemma_fundamental_div_mod_converse(lo + 256 * hi, 256, hi, lo);
}

/// Four bytes written by `le4` read back as the number they came from.
proof fn lemma_le4_word(v: int)
    requires
        0 <= v <= u32::MAX,
    ensures
        word_at(le4(v), 0) == v,
{
    lemma_fundamental_div_mod(v, 256);
    lemma_fundamental_div_mod(v / 256, 256);
    lemma_fundamental_div_mod(v / 256 / 256, 256);
    lemma_fundamental_div_mod(v / 256 / 256 / 256, 256);
}

/// Any four bytes are what `le4` writes for the number they encode.
proof fn lemma_word_le4(s: Seq<u8>, i: int)
    requires
        0 <= i,
        i + 4 <= s.len(),
    ensures
        0 <= word_at(s, i) <= u32::MAX,
        le4(word_at(s, i)) == s.subrange(i, i + 4),
{
    let a = s[i + 2] + 256 * s[i + 3];
    let b = s[i + 1] + 256 * a;
    lemma_join_byte(s[i + 2] as int, s[i + 3] as int);
    lemma_join_byte(s[i + 1] as int, a);
    lemma_join_byte(s[i] as int, b);
    assert(le4(word_at(s, i)) =~= s.subrange(i, i + 4));
}

proof fn lemma_le32_round_trip(x: u32)
    ensures
        read_u32(le32(x), 0) == x,
{
    lemma_le4_word(x as int);
}

proof fn lemma_le64_round_trip(x: u64)
    ensures
        read_u64(le64(x), 0) == x,
{
    let lo = x as int % 0x1_0000_0000;
    let hi = x as int / 0x1_0000_0000;
    lemma_fundamental_div_mod(x as int, 0x1_0000_0000);
    lemma_le4_word(lo);
    lemma_le4_word(hi);
    let s = le64(x);
    assert(s.subrange(4, 8) =~= le4(hi));
    assert(word_at(s, 4) == word_at(le4(hi), 0));
}

proof fn lemma_word64_le64(s: Seq<u8>, i: int)
    requires
        0 <= i,
        i + 8 <= s.len(),
    ensures
        le64(read_u64(s, i)) == s.subrange(i, i + 8),
{
    let lo = word_at(s, i);
    let hi = word_at(s, i + 4);
    lemma_word_le4(s, i);
    lemma_word_le4(s, i + 4);
    let v = lo + 0x1_0000_0000 * hi;
    lemma_fundamental_div_mod_converse(v, 0x1_0000_0000, hi, lo);
    assert(le64(v as u64) =~= s.subrange(i, i + 4) + s.subrange(i + 4, i + 8));
    assert(s.subrange(i, i + 8) =~= s.subrange(i, i + 4) + s.subrange(i + 4, i + 8));
}

/// Reading a word at offset `i + k` of `s`, where the bytes from `i` on are `w`
/// and `w` holds the encoding of `x` at offset `k`, gives back `x`.
proof fn lemma_read_word(s: Seq<u8>, i: int, w: Seq<u8>, k: int, x: u32)
    requires
        0 <= i,
        i + w.len() <= s.len(),
        s.subrange(i, i + w.len()) == w,
        0 <= k,
        k + 4 <= w.len(),
        w.subrange(k, k + 4) == le32(x),
    ensures
        read_u32(s, i + k) == x,
{
    lemma_le32_round_trip(x);
    assert(s.subrange(i + k, i + k + 4) =~= w.subrange(k, k + 4)) by {
        assert forall|j: int| 0 <= j < 4 implies #[trigger] s.subrange(i + k, i + k + 4)[j]
            == w.subrange(k, k + 4)[j] by {
            assert(s.subrange(i, i + w.len())[k + j] == s[i + k + j]);
        }
    }
    let t = s.subrange(i + k, i + k + 4);
    assert(word_at(s, i + k) == word_at(t, 0));
}

/// A word read from `s` is encoded by the bytes it was read from.
proof fn lemma_word_bytes(s: Seq<u8>, i: int)
    requires
        0 <= i,
        i + 4 <= s.len(),
    ensures
        le32(read_u32(s, i)) == s.subrange(i, i + 4),
{
    lemma_word_le4(s, i);
}

/// The encoding of an action is parsed back as that action.
proof fn lemma_parse_encoded_action(s: Seq<u8>, i: int, a: PlayerAction)
    requires
        0 <= i,
        i + action_bytes(a).len() <= s.len(),
        s.subrange(i, i + action_bytes(a).len()) == action_bytes(a),
    ensures
        parse_action_at(s, i) == Some((a, i + action_bytes(a).len())),
{
    lemma_le_lens();
    let w = action_bytes(a);
    match a {
        PlayerAction::Build { building, moon } => {
            assert(w.subrange(0, 4) =~= le32(0));
            assert(w.subrange(4, 8) =~= le32(building_tag(building)));
            assert(w.subrange(8, 12) =~= le32(moon));
            lemma_read_word(s, i, w, 0, 0);
            lemma_read_word(s, i, w, 4, building_tag(building));
            lemma_read_word(s, i, w, 8, moon);
        },
        PlayerAction::ChangeAura { aura, planet } => {
            assert(w.subrange(0, 4) =~= le32(1));
            lemma_read_word(s, i, w, 0, 1);
            assert(s[i + 4] == w[4]) by {
                assert(s.subrange(i, i + w.len())[4] == s[i + 4]);
            }
            match aura {
                None => {
                    assert(w.subrange(5, 9) =~= le32(planet));
                    lemma_read_word(s, i, w, 5, planet);
                },
                Some(x) => {
                    assert(w.subrange(5, 9) =~= le32(aura_tag(x)));
                    assert(w.subrange(9, 13) =~= le32(planet));
                    lemma_read_word(s, i, w, 5, aura_tag(x));
                    lemma_read_word(s, i, w, 9, planet);
                },
            }
        },
        PlayerAction::ShootRocket { pos, dir } => {
            assert(w.subrange(0, 4) =~= le32(2));
            assert(w.subrange(4, 8) =~= le32(pos.x));
            assert(w.subrange(8, 12) =~= le32(pos.y));
            assert(w.subrange(12, 16) =~= le32(dir.x));
            assert(w.subrange(16, 20) =~= le32(dir.y));
            lemma_read_word(s, i, w, 0, 2);
            lemma_read_word(s, i, w, 4, pos.x);
            lemma_read_word(s, i, w, 8, pos.y);
            lemma_read_word(s, i, w, 12, dir.x);
            lemma_read_word(s, i, w, 16, dir.y);
        },
    }
}

/// What is parsed as an action is exactly that action's encoding.
proof fn lemma_parsed_action_is_encoding(s: Seq<u8>, i: int)
    requires
        parse_action_at(s, i) is Some,
    ensures
        ({
            let (a, j) = parse_action_at(s, i).unwrap();
            &&& j == i + action_bytes(a).len()
            &&& j <= s.len()
            &&& s.subrange(i, j) == action_bytes(a)
        }),
{
    lemma_le_lens();
    let (a, j) = parse_action_at(s, i).unwrap();
    lemma_word_bytes(s, i);
    let tag = read_u32(s, i);
    if tag == 0 {
        lemma_word_bytes(s, i + 4);
        lemma_word_bytes(s, i + 8);
        assert(s.subrange(i, j) =~= s.subrange(i, i + 4) + s.subrange(i + 4, i + 8) + s.subrange(
            i + 8,
            i + 12,
        ));
    } else if tag == 1 {
        if s[i + 4] == 0 {
            lemma_word_bytes(s, i + 5);
            assert(s.subrange(i, j) =~= s.subrange(i, i + 4) + seq![s[i + 4]] + s.subrange(
                i + 5,
                i + 9,
            ));
        } else {
            lemma_word_bytes(s, i + 5);
            lemma_word_bytes(s, i + 9);
            assert(s.subrange(i, j) =~= s.subrange(i, i + 4) + (seq![s[i + 4]] + s.subrange(
                i + 5,
                i + 9,
            )) + s.subrange(i + 9, i + 13));
        }
    } else {
        lemma_word_bytes(s, i + 4);
        lemma_word_bytes(s, i + 8);
        lemma_word_bytes(s, i + 12);
        lemma_word_bytes(s, i + 16);
        assert(s.subrange(i, j) =~= s.subrange(i, i + 4) + s.subrange(i + 4, i + 8) + s.subrange(
            i + 8,
            i + 12,
        ) + s.subrange(i + 12, i + 16) + s.subrange(i + 16, i + 20));
    }
}

proof fn lemma_actions_bytes_append(a: Seq<PlayerAction>, b: Seq<PlayerAction>)
    ensures
        actions_bytes(a + b) == actions_bytes(a) + actions_bytes(b),
    decreases a.len(),
{
    if a.len() == 0 {
        assert(a + b =~= b);
        assert(actions_bytes(a) + actions_bytes(b) =~= actions_bytes(b));
    } else {
        assert((a + b).drop_first() =~= a.drop_first() + b);
        lemma_actions_bytes_append(a.drop_first(), b);
    }
}

proof fn lemma_actions_bytes_push(a: Seq<PlayerAction>, x: PlayerAction)
    ensures
        actions_bytes(a.push(x)) == actions_bytes(a) + action_bytes(x),
{
    assert(a.push(x) =~= a + seq![x]);
    lemma_actions_bytes_append(a, seq![x]);
    assert(seq![x].drop_first() =~= Seq::<PlayerAction>::empty());
    assert(seq![x][0] == x);
    assert(actions_bytes(Seq::<PlayerAction>::empty()) == Seq::<u8>::empty());
    assert(actions_bytes(seq![x]) =~= action_bytes(x) + Seq::<u8>::empty());
    assert(action_bytes(x) + Seq::<u8>::empty() =~= action_bytes(x));
}

proof fn lemma_parse_encoded_actions(s: Seq<u8>, i: int, v: Seq<PlayerAction>)
    requires
        0 <= i <= s.len(),
        s.subrange(i, s.len() as int) == actions_bytes(v),
    ensures
        parse_actions_at(s, i, v.len()) == Some(v),
    decreases v.len(),
{
    if v.len() == 0 {
        assert(s.subrange(i, s.len() as int).len() == 0);
    } else {
        let w = action_bytes(v[0]);
        let rest = actions_bytes(v.drop_first());
        assert(actions_bytes(v) == w + rest);
        assert(s.subrange(i, i + w.len()) =~= s.subrange(i, s.len() as int).subrange(0, w.len() as int));
        assert((w + rest).subrange(0, w.len() as int) =~= w);
        lemma_parse_encoded_action(s, i, v[0]);
        let j = i + w.len();
        assert(s.subrange(j, s.len() as int) =~= (w + rest).subrange(w.len() as int, (w + rest).len() as int));
        assert((w + rest).subrange(w.len() as int, (w + rest).len() as int) =~= rest);
        lemma_parse_encoded_actions(s, j, v.drop_first());
        assert(seq![v[0]] + v.drop_first() =~= v);
    }
}

proof fn lemma_parsed_actions_are_encoding(s: Seq<u8>, i: int, n: nat)
    requires
        parse_actions_at(s, i, n) is Some,
    ensures
        0 <= i <= s.len(),
        parse_actions_at(s, i, n).unwrap().len() == n,
        s.subrange(i, s.len() as int) == actions_bytes(parse_actions_at(s, i, n).unwrap()),
    decreases n,
{
    let v = parse_actions_at(s, i, n).unwrap();
    if n == 0 {
        assert(s.subrange(i, s.len() as int) =~= Seq::<u8>::empty());
    } else {
        let (a, j) = parse_action_at(s, i).unwrap();
        lemma_parsed_action_is_encoding(s, i);
        lemma_parsed_actions_are_encoding(s, j, (n - 1) as nat);
        let rest = parse_actions_at(s, j, (n - 1) as nat).unwrap();
        assert(v == seq![a] + rest);
        assert(v[0] == a);
        assert(v.drop_first() =~= rest);
        assert(s.subrange(i, s.len() as int) =~= s.subrange(i, j) + s.subrange(j, s.len() as int));
    }
}

/// Decoding an encoded action gives back the same action.
pub proof fn lemma_action_round_trip(a: PlayerAction)
    ensures
        parse_action(action_bytes(a)) == Some(a),
{
    let s = action_bytes(a);
    assert(s.subrange(0, s.len() as int) =~= s);
    lemma_parse_encoded_action(s, 0, a);
}

/// A byte string decodes to an action exactly when it is that action's
/// encoding: decoding accepts nothing else.
pub proof fn lemma_action_decode_exact(s: Seq<u8>, a: PlayerAction)
    ensures
        parse_action(s) == Some(a) <==> action_bytes(a) == s,
{
    if parse_action(s) == Some(a) {
        lemma_parsed_action_is_encoding(s, 0);
        assert(s.subrange(0, s.len() as int) =~= s);
    }
    if action_bytes(a) == s {
        lemma_action_round_trip(a);
    }
}

/// Decoding an encoded turn gives back the same actions in the same order.
pub proof fn lemma_turn_round_trip(v: Seq<PlayerAction>)
    requires
        v.len() <= u64::MAX,
    ensures
        parse_turn(turn_bytes(v)) == Some(v),
{
    lemma_le_lens();
    lemma_le64_round_trip(v.len() as u64);
    let s = turn_bytes(v);
    assert(s.subrange(0, 8) =~= le64(v.len() as u64));
    assert(read_u64(s, 0) == read_u64(le64(v.len() as u64), 0));
    assert(s.subrange(8, s.len() as int) =~= actions_bytes(v));
    lemma_parse_encoded_actions(s, 8, v);
}

/// A byte string decodes to a turn exactly when it is that turn's encoding.
pub proof fn lemma_turn_decode_exact(s: Seq<u8>, v: Seq<PlayerAction>)
    requires
        v.len() <= u64::MAX,
    ensures
        parse_turn(s) == Some(v) <==> turn_bytes(v) == s,
{
    lemma_le_lens();
    if parse_turn(s) == Some(v) {
        let n = read_u64(s, 0);
        lemma_word64_le64(s, 0);
        lemma_parsed_actions_are_encoding(s, 8, n as nat);
        assert(le64(n) == s.subrange(0, 8));
        assert(s =~= s.subrange(0, 8) + s.subrange(8, s.len() as int));
    }
    if turn_bytes(v) == s {
        lemma_turn_round_trip(v);
    }
}

// ---------------------------------------------------------------------------
// Encoding and decoding
// ---------------------------------------------------------------------------

fn put_u32(out: &mut Vec<u8>, x: u32)
    ensures
        final(out)@ == old(out)@ + le32(x),
{
    out.push((x % 256) as u8);
    out.push((x / 256 % 256) as u8);
    out.push((x / 256 / 256 % 256) as u8);
    out.push((x / 256 / 256 / 256 % 256) as u8);
    assert(final(out)@ =~= old(out)@ + le32(x));
}

fn put_u64(out: &mut Vec<u8>, x: u64)
    ensures
        final(out)@ == old(out)@ + le64(x),
{
    put_u32(out, (x % 0x1_0000_0000) as u32);
    put_u32(out, (x / 0x1_0000_0000) as u32);
    assert(final(out)@ =~= old(out)@ + le64(x));
}

fn write_action(out: &mut Vec<u8>, a: &PlayerAction)
    ensures
        final(out)@ == old(out)@ + action_bytes(*a),
{
    match a {
        PlayerAction::Build { building, moon } => {
            put_u32(out, 0);
            let t: u32 = match building {
                BuildingType::Mining => 0,
                BuildingType::Production => 1,
            };
            put_u32(out, t);
            put_u32(out, *moon);
        },
        PlayerAction::ChangeAura { aura, planet } => {
            put_u32(out, 1);
            match aura {
                None => {
                    out.push(0);
                },
                Some(x) => {
                    out.push(1);
                    let t: u32 = match x {
                        Aura::MoonSpeed => 0,
                        Aura::ProductionSpeed => 1,
                        Aura::RocketDamage => 2,
                        Aura::RocketSpeed => 3,
                        Aura::Shield => 4,
                    };
                    put_u32(out, t);
                },
            }
            put_u32(out, *planet);
        },
        PlayerAction::ShootRocket { pos, dir } => {
            put_u32(out, 2);
            put_u32(out, pos.x);
            put_u32(out, pos.y);
            put_u32(out, dir.x);
            put_u32(out, dir.y);
        },
    }
    assert(final(out)@ =~= old(out)@ + action_bytes(*a));
}

/// Encodes one action. An action's encoding is at most 20 bytes long, so it
/// always fits in a frame.
pub fn encode_action(a: &PlayerAction) -> (r: Vec<u8>)
    ensures
        r@ == action_bytes(*a),
        r@.len() <= 20,
{
    proof {
        lemma_le_lens();
    }
    let mut out: Vec<u8> = Vec::new();
    write_action(&mut out, a);
    assert(out@ =~= action_bytes(*a));
    out
}

/// Encodes a turn; fails when the encoding would not fit in one frame.
pub fn encode_turn(turn: &ServerTurn) -> (r: Result<Vec<u8>, CodecError>)
    ensures
        match r {
            Ok(bytes) => bytes@ == turn_bytes(turn@) && bytes@.len() <= MAX_PAYLOAD_LEN,
            Err(e) => e == CodecError::SerializationTooLarge && turn_bytes(turn@).len()
                > MAX_PAYLOAD_LEN,
        },
{
    let actions = turn.actions();
    let n = actions.len();
    let mut out: Vec<u8> = Vec::new();
    put_u64(&mut out, n as u64);
    let mut k: usize = 0;
    while k < n
        invariant
            k <= n,
            n == actions@.len(),
            actions@ == turn@,
            out@ == le64(n as u64) + actions_bytes(actions@.take(k as int)),
        decreases n - k,
    {
        proof {
            lemma_actions_bytes_push(actions@.take(k as int), actions@[k as int]);
            assert(actions@.take(k as int).push(actions@[k as int]) =~= actions@.take(k + 1));
        }
        write_action(&mut out, &actions[k]);
        k = k + 1;
    }
    assert(actions@.take(n as int) =~= actions@);
    if out.len() > MAX_PAYLOAD_LEN {
        Err(CodecError::SerializationTooLarge)
    } else {
        Ok(out)
    }
}

fn read_word(b: &[u8], i: usize) -> (r: u32)
    requires
        i + 4 <= b@.len(),
    ensures
        r == read_u32(b@, i as int),
{
    let b0 = b[i] as u32;
    let b1 = b[i + 1] as u32;
    let b2 = b[i + 2] as u32;
    let b3 = b[i + 3] as u32;
    b0 + 256 * (b1 + 256 * (b2 + 256 * b3))
}

/// Parses the action whose encoding starts at offset `i`.
fn read_action(b: &[u8], i: usize) -> (r: Option<(PlayerAction, usize)>)
    requires
        i <= b@.len(),
    ensures
        match r {
            Some((a, j)) => parse_action_at(b@, i as int) == Some((a, j as int)),
            None => parse_action_at(b@, i as int) is None,
        },
{
    let len = b.len();
    if len - i < 4 {
        return None;
    }
    let tag = read_word(b, i);
    if tag == 0 {
        if len - i < 12 {
            return None;
        }
        let t = read_word(b, i + 4);
        let building = if t == 0 {
            BuildingType::Mining
        } else if t == 1 {
            BuildingType::Production
        } else {
            return None;
        };
        let moon = read_word(b, i + 8);
        Some((PlayerAction::Build { building, moon }, i + 12))
    } else if tag == 1 {
        if len - i < 5 {
            return None;
        }
        let flag = b[i + 4];
        if flag == 0 {
            if len - i < 9 {
                return None;
            }
            let planet = read_word(b, i + 5);
            Some((PlayerAction::ChangeAura { aura: None, planet }, i + 9))
        } else if flag == 1 {
            if len - i < 13 {
                return None;
            }
            let t = read_word(b, i + 5);
            let aura = if t == 0 {
                Aura::MoonSpeed
            } else if t == 1 {
                Aura::ProductionSpeed
            } else if t == 2 {
                Aura::RocketDamage
            } else if t == 3 {
                Aura::RocketSpeed
            } else if t == 4 {
                Aura::Shield
            } else {
                return None;
            };
            let planet = read_word(b, i + 9);
            Some((PlayerAction::ChangeAura { aura: Some(aura), planet }, i + 13))
        } else {
            None
        }
    } else if tag == 2 {
        if len - i < 20 {
            return None;
        }
        let pos = Vec2Bits { x: read_word(b, i + 4), y: read_word(b, i + 8) };
        let dir = Vec2Bits { x: read_word(b, i + 12), y: read_word(b, i + 16) };
        Some((PlayerAction::ShootRocket { pos, dir }, i + 20))
    } else {
        None
    }
}

/// Decodes one action; fails unless the bytes are exactly one action's
/// encoding.
pub fn decode_action(b: &[u8]) -> (r: Result<PlayerAction, CodecError>)
    ensures
        match r {
            Ok(a) => parse_action(b@) == Some(a),
            Err(e) => e == CodecError::DecodeError && parse_action(b@) is None,
        },
{
    match read_action(b, 0) {
        Some((a, j)) => {
            if j == b.len() {
                Ok(a)
            } else {
                Err(CodecError::DecodeError)
            }
        },
        None => Err(CodecError::DecodeError),
    }
}

/// Decodes one turn; fails unless the bytes are exactly one turn's encoding.
pub fn decode_turn(b: &[u8]) -> (r: Result<ServerTurn, CodecError>)
    ensures
        match r {
            Ok(t) => parse_turn(b@) == Some(t@),
            Err(e) => e == CodecError::DecodeError && parse_turn(b@) is None,
        },
{
    if b.len() < 8 {
        return Err(CodecError::DecodeError);
    }
    let n = read_word(b, 0) as u64 + 0x1_0000_0000 * (read_word(b, 4) as u64);
    let mut actions: Vec<PlayerAction> = Vec::new();
    let mut i: usize = 8;
    let mut k: u64 = 0;
    while k < n
        invariant
            8 <= i <= b@.len(),
            k <= n,
            n == read_u64(b@, 0),
            actions@.len() == k,
            parse_turn(b@) == match parse_actions_at(b@, i as int, (n - k) as nat) {
                Some(rest) => Some(actions@ + rest),
                None => None,
            },
        decreases n - k,
    {
        match read_action(b, i) {
            Some((a, j)) => {
                proof {
                    lemma_parsed_action_is_encoding(b@, i as int);
                    let m = (n - k) as nat;
                    match parse_actions_at(b@, j as int, (m - 1) as nat) {
                        Some(rest) => {
                            assert(actions@ + (seq![a] + rest) =~= actions@.push(a) + rest);
                        },
                        None => {},
                    }
                }
                actions.push(a);
                i = j;
                k = k + 1;
            },
            None => {
                return Err(CodecError::DecodeError);
            },
        }
    }
    if i == b.len() {
        assert(actions@ + Seq::<PlayerAction>::empty() =~= actions@);
        Ok(ServerTurn::new(actions))
    } else {
        Err(CodecError::DecodeError)
    }
}

} // verus!
