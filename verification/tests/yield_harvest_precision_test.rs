use sorosusu_contracts::yield_distribution::split_yield_shares;

#[test]
fn test_yield_harvest_math_precision() {
    // A circle of 20 members.
    let members: Vec<u64> = (0..20).map(|i| 100 + i).collect();
    assert_eq!(members.len(), 20);

    let total_yield: i128 = 123456789;

    let recipient_share_bps = 5000u32;
    let treasury_share_bps = 5000u32;

    let recipient_share = (total_yield * recipient_share_bps as i128) / 10000;
    let treasury_share = (total_yield * treasury_share_bps as i128) / 10000;

    let distributed_amount = recipient_share + treasury_share;
    let dust_amount = total_yield - distributed_amount;

    assert_eq!(recipient_share, 61728394);
    assert_eq!(treasury_share, 61728394);
    assert_eq!(distributed_amount, 123456788);
    assert_eq!(dust_amount, 1);

    let member_count = 20u32;
    let yield_per_member = recipient_share / member_count as i128;
    let member_dust = recipient_share % member_count as i128;

    assert_eq!(yield_per_member, 3086419);
    assert_eq!(member_dust, 14);

    let expected_treasury_total = treasury_share + dust_amount + member_dust;
    assert_eq!(expected_treasury_total, 61728394 + 1 + 14);
}

#[test]
fn test_fixed_point_division_precision() {
    let test_amounts: Vec<i128> = vec![100000001, 123456789, 999999999, 1, 50, 5000, 10000];

    for amount in test_amounts {
        let recipient_share = (amount * 5000) / 10000;
        let treasury_share = (amount * 5000) / 10000;
        let dust = amount - (recipient_share + treasury_share);
        assert!(dust >= 0 && dust < 10000);
    }
}

#[test]
fn test_dust_prevention_mechanism() {
    let total_yield: i128 = 123456789;

    let (recipient_share, treasury_share) = split_yield_shares(total_yield);

    let distributed_amount = recipient_share + treasury_share;
    let dust_amount = total_yield - distributed_amount;

    assert_eq!(distributed_amount, total_yield);
    assert_eq!(dust_amount, 0);
    assert_eq!(treasury_share, 61728395);
}

#[test]
fn test_member_distribution_with_dust_handling() {
    let total_yield_for_members: i128 = 61728394;
    let member_count = 20u32;

    let base_share = total_yield_for_members / member_count as i128;
    let remainder = total_yield_for_members % member_count as i128;

    let first_19_total = base_share * 19;
    let last_member_share = base_share + remainder;

    let total_distributed = first_19_total + last_member_share;
    assert_eq!(total_distributed, total_yield_for_members);
}
