use blackjack_core::dice::roll_dice;

#[test]
// Testing that the roll_dice function produces a valid total, over 1000 tries
fn roll_dice_produces_valid_total() {
    let mut valid_range = true;
    for _ in 0..1000 {
        let total: i32 = roll_dice();
        if !(2..=12).contains(&total) {
            valid_range = false;
            break;
        }
    }
    assert!(valid_range, "roll_dice produced a total outside the valid range (2-12)");
}
