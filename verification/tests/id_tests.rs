use battle_core::ids::{make_artifact_instance_id, make_instance_id, make_item_instance_id, side_tag};
use battle_core::position::Side;

#[test]
fn side_tags() {
    assert_eq!(side_tag(Side::Player), 1);
    assert_eq!(side_tag(Side::Opponent), 2);
}

#[test]
fn instance_ids_flip_the_leading_bytes() {
    let base: u128 = 0x0011_2233_4455_6677_8899_aabb_ccdd_eeff;
    // Byte 0 ^ 1, bytes 1..4 ^ the salt bytes from least significant up.
    let expected: u128 = 0x0147_1621_4455_6677_8899_aabb_ccdd_eeff;
    assert_eq!(make_instance_id(base, Side::Player, 0x0012_3456), expected);
    assert_eq!(make_instance_id(base, Side::Opponent, 0), base ^ (2u128 << 120));
    assert_eq!(make_artifact_instance_id(base, Side::Player, 0), base ^ (0x81u128 << 120));
    let owner: u128 = 0xffff_0000_0000_0000_0000_0000_0000_0001;
    assert_eq!(make_item_instance_id(base, Side::Player, owner, 0), base ^ owner ^ (1u128 << 120));
    // Different salts give different identifiers.
    assert_ne!(make_instance_id(base, Side::Player, 1), make_instance_id(base, Side::Player, 2));
}
