use sorosusu_contracts::yield_distribution::{
    split_yield_shares, YieldDistribution, YIELD_DISTRIBUTION_RECIPIENT_BPS,
};

#[test]
fn test_dust_fix_validation() {
    let test_cases: Vec<(i128, i128, i128)> = vec![
        (123456789, 61728394, 61728395),
        (100000001, 50000000, 50000001),
        (999999999, 499999999, 500000000),
        (1, 0, 1),
        (99, 49, 50),
        (101, 50, 51),
        (10000, 5000, 5000),
        (0, 0, 0),
    ];

    for (total_yield, expected_recipient, expected_treasury) in test_cases {
        let (recipient_share, treasury_share) = split_yield_shares(total_yield);

        assert_eq!(recipient_share, expected_recipient, "Recipient share mismatch for yield {}", total_yield);
        assert_eq!(treasury_share, expected_treasury, "Treasury share mismatch for yield {}", total_yield);

        let total_distributed = recipient_share + treasury_share;
        let dust = total_yield - total_distributed;
        assert_eq!(dust, 0, "Dust detected for yield {}: {}", total_yield, dust);
    }
}

#[test]
fn test_complete_yield_distribution_flow() {
    let circle_id = 1u64;
    let total_yield_earned: i128 = 123456789;
    let already_distributed: i128 = 0;

    let new_yield = total_yield_earned - already_distributed;

    let (recipient_share, treasury_share) = split_yield_shares(new_yield);

    assert_eq!(recipient_share + treasury_share, new_yield);
    assert_eq!(recipient_share, 61728394);
    assert_eq!(treasury_share, 61728395);

    let updated_distributed = already_distributed + new_yield;
    assert_eq!(updated_distributed, total_yield_earned);

    let distribution = YieldDistribution {
        circle_id,
        recipient_share,
        treasury_share,
        total_yield: new_yield,
        distribution_time: 0,
        round_number: 1,
    };

    assert_eq!(distribution.recipient_share + distribution.treasury_share, distribution.total_yield);
    assert_eq!(YIELD_DISTRIBUTION_RECIPIENT_BPS, 5000);
}

#[test]
fn test_treasury_dust_collection() {
    let test_yields: Vec<i128> = vec![123456789, 100000001, 999999999, 99, 101];

    let mut total_dust_collected = 0i128;

    for yield_amount in test_yields {
        let buggy_recipient = (yield_amount * 5000) / 10000;
        let buggy_treasury = (yield_amount * 5000) / 10000;
        let buggy_dust = yield_amount - (buggy_recipient + buggy_treasury);

        let (fixed_recipient, fixed_treasury) = split_yield_shares(yield_amount);
        let fixed_dust = yield_amount - (fixed_recipient + fixed_treasury);

        let dust_collected_this_round = fixed_treasury - buggy_treasury;
        total_dust_collected += dust_collected_this_round;

        assert_eq!(fixed_dust, 0, "Fixed method should have no dust");
        assert_eq!(dust_collected_this_round, buggy_dust, "Treasury should collect exactly the dust");
    }

    assert_eq!(total_dust_collected, 5, "Should collect 5 stroops total from test cases");
}
