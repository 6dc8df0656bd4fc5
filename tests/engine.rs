use sandbox_ledger::approval::Authorizer;
use sandbox_ledger::error::Rejection;
use sandbox_ledger::instruction::SupplyAll;
use sandbox_ledger::keys::{
    CompositeKey, FlexCompositeKey, FlexFuzzyCompositeKey, FlexFuzzyNodeKey, FlexKeyElem,
    FlexNodeKey, FuzzyCompositeKey, FuzzyNodeKey, NodeKey, SingleKey,
};
use sandbox_ledger::ledger::{PermissionV, World};
use sandbox_ledger::pipeline::{execute, initiate};
use sandbox_ledger::tree::{
    AccountAssetA, AccountAssetE, AccountAssetR, AccountAssetV, AccountAssetW, EventSet,
    FlexFuzzyTree, FlexTree, FuzzyTree, NodeValue, Tree,
};

fn record(account: &str, asset: &str, balance: u32) -> (CompositeKey, AccountAssetV) {
    (CompositeKey(account.into(), asset.into()), AccountAssetV { balance })
}

fn account_asset() -> Vec<(CompositeKey, AccountAssetV)> {
    vec![
        record("alice", "rose", 500),
        record("bob", "rose", 100),
        record("carol", "rose", 90),
        record("dave", "rose", 90),
        record("eve", "tulip", 90),
    ]
}

fn grant(first: Option<FlexKeyElem>, second: Option<&str>, bit_mask: u8) -> (FlexFuzzyNodeKey, NodeValue<sandbox_ledger::tree::Allow>) {
    (
        FlexFuzzyNodeKey::AccountAsset(FlexFuzzyCompositeKey(first, second.map(|s| s.to_string()))),
        NodeValue::AccountAsset(AccountAssetA { bit_mask }),
    )
}

fn permission() -> Vec<(SingleKey, PermissionV)> {
    vec![
        (
            SingleKey("almighty".into()),
            PermissionV { permission: FlexFuzzyTree(vec![grant(None, None, 0b0011_0111)]) },
        ),
        (
            SingleKey("inspector".into()),
            PermissionV { permission: FlexFuzzyTree(vec![grant(None, None, 0b0000_0001)]) },
        ),
        (
            SingleKey("everyman".into()),
            PermissionV {
                permission: FlexFuzzyTree(vec![
                    grant(None, None, 0b0000_0010),
                    grant(Some(FlexKeyElem::This), None, 0b0000_0111),
                ]),
            },
        ),
    ]
}

fn account_permission() -> Vec<CompositeKey> {
    ["alice", "bob", "carol", "dave", "eve"]
        .iter()
        .map(|a| CompositeKey(a.to_string(), "everyman".into()))
        .collect()
}

fn world() -> World {
    World {
        permission: permission(),
        account_asset: account_asset(),
        account_permission: account_permission(),
    }
}

fn supply(supplier: &str) -> SupplyAll {
    SupplyAll {
        asset: "rose".into(),
        threshold: 100,
        supply_amount: 50,
        supplier: supplier.into(),
    }
}

fn intent(first: FlexKeyElem, asset: &str, w: AccountAssetW) -> (FlexNodeKey, NodeValue<sandbox_ledger::tree::Write>) {
    (
        FlexNodeKey::AccountAsset(FlexCompositeKey(first, asset.into())),
        NodeValue::AccountAsset(w),
    )
}

#[test]
fn instruction_flows() {
    let mut world = world();
    world.account_permission.push(CompositeKey("alice".into(), "almighty".into()));
    let authority = SingleKey("alice".into());

    let result = execute(&mut world, authority, &supply("alice"));
    assert!(result.is_ok(), "should write");

    let expected = vec![
        record("alice", "rose", 400),
        record("bob", "rose", 100),
        record("carol", "rose", 140),
        record("dave", "rose", 140),
        record("eve", "tulip", 90),
    ];
    assert_eq!(world.account_asset, expected);
}

#[test]
fn almighty_reads_and_sends_others() {
    let mut world = world();
    world.account_permission.push(CompositeKey("alice".into(), "almighty".into()));
    let almighty = SingleKey("alice".into());

    let result = execute(&mut world, almighty, &supply("bob"));
    assert!(result.is_ok(), "should write");

    let expected = vec![
        record("alice", "rose", 500),
        record("bob", "rose", 0),
        record("carol", "rose", 140),
        record("dave", "rose", 140),
        record("eve", "tulip", 90),
    ];
    assert_eq!(world.account_asset, expected);
}

#[test]
fn inspector_reads_but_does_not_send_others() {
    let mut world = world();
    world.account_permission.push(CompositeKey("alice".into(), "inspector".into()));
    let inspector = SingleKey("alice".into());

    let res = execute(&mut world, inspector, &supply("bob"));
    assert!(matches!(res, Err(Rejection::WriteRejected)), "write request should be rejected");
    assert_eq!(world.account_asset, account_asset());
}

#[test]
fn everyman_does_not_read_or_send_others() {
    let mut world = world();
    let everyman = SingleKey("alice".into());

    let res = execute(&mut world, everyman, &supply("bob"));
    assert!(matches!(res, Err(Rejection::ReadRejected)), "read request should be rejected");
    assert_eq!(world.account_asset, account_asset());
}

#[test]
fn self_targeted_writes_are_approved() {
    let mut world = world();
    let alice = SingleKey("alice".into());

    let request = FuzzyTree(vec![(
        FuzzyNodeKey::AccountAsset(FuzzyCompositeKey(Some("alice".into()), Some("rose".into()))),
        NodeValue::AccountAsset(AccountAssetR),
    )]);
    let reading = initiate(alice)
        .read_request(request)
        .read_approval(&world)
        .expect("read request should be approved");
    let has_read = reading.read(&world).expect("should read");
    assert_eq!(has_read.view().0.len(), 1);
    assert_eq!(
        has_read.view().0[0],
        (
            NodeKey::AccountAsset(CompositeKey("alice".into(), "rose".into())),
            NodeValue::AccountAsset(AccountAssetV { balance: 500 })
        )
    );
    let intents = FlexTree(vec![
        intent(FlexKeyElem::This, "rose", AccountAssetW::Send(30)),
        intent(FlexKeyElem::This, "tulip", AccountAssetW::Receive(30)),
    ]);
    let done = has_read
        .write_request(intents)
        .write_approval()
        .expect("write request should be approved")
        .write(&mut world)
        .expect("should write");
    assert_eq!(
        done.committed().0,
        vec![
            (
                NodeKey::AccountAsset(CompositeKey("alice".into(), "rose".into())),
                NodeValue::AccountAsset(AccountAssetW::Send(30))
            ),
            (
                NodeKey::AccountAsset(CompositeKey("alice".into(), "tulip".into())),
                NodeValue::AccountAsset(AccountAssetW::Receive(30))
            ),
        ]
    );
    assert_eq!(world.account_asset[0], record("alice", "rose", 470));
    assert_eq!(world.account_asset[5], record("alice", "tulip", 30));
}

#[test]
fn sending_from_another_account_is_rejected() {
    let world = world();
    let alice = SingleKey("alice".into());
    let request = FuzzyTree(vec![(
        FuzzyNodeKey::AccountAsset(FuzzyCompositeKey(Some("alice".into()), None)),
        NodeValue::AccountAsset(AccountAssetR),
    )]);
    let has_read = initiate(alice)
        .read_request(request)
        .read_approval(&world)
        .expect("read request should be approved")
        .read(&world)
        .expect("should read");
    let intents = FlexTree(vec![
        intent(FlexKeyElem::This, "rose", AccountAssetW::Receive(10)),
        intent(FlexKeyElem::That("bob".into()), "rose", AccountAssetW::Send(10)),
    ]);
    let res = has_read.write_request(intents).write_approval();
    assert!(matches!(res, Err(Rejection::WriteRejected)));
}

#[test]
fn write_set_with_duplicate_intents_aggregates() {
    let write_set = FlexTree(vec![
        intent(FlexKeyElem::That("alice".into()), "rose", AccountAssetW::Receive(10)),
        intent(FlexKeyElem::That("alice".into()), "rose", AccountAssetW::Receive(20)),
    ]);
    let host_write_set = write_set.aggregate().expect("same-kind intents merge");
    let key = FlexNodeKey::AccountAsset(FlexCompositeKey(
        FlexKeyElem::That("alice".to_string()),
        "rose".to_string(),
    ));
    assert_eq!(host_write_set.0.len(), 1);
    assert_eq!(host_write_set.0[0].0, key);
    assert_eq!(host_write_set.0[0].1, NodeValue::AccountAsset(AccountAssetW::Receive(30)));
}

#[test]
fn write_set_with_contradictory_intents_does_not_aggregate() {
    let write_set = FlexTree(vec![
        intent(FlexKeyElem::That("alice".into()), "rose", AccountAssetW::Receive(10)),
        intent(FlexKeyElem::That("alice".into()), "rose", AccountAssetW::Send(20)),
    ]);
    assert!(matches!(write_set.aggregate(), Err(Rejection::AggregationConflict)));
}

#[test]
fn aggregation_keeps_first_occurrence_order_and_sums_sends() {
    let write_set = FlexTree(vec![
        intent(FlexKeyElem::That("carol".into()), "rose", AccountAssetW::Receive(50)),
        intent(FlexKeyElem::That("alice".into()), "rose", AccountAssetW::Send(50)),
        intent(FlexKeyElem::That("dave".into()), "rose", AccountAssetW::Receive(50)),
        intent(FlexKeyElem::That("alice".into()), "rose", AccountAssetW::Send(50)),
    ]);
    let merged = write_set.aggregate().expect("no conflict");
    assert_eq!(
        merged.0,
        vec![
            intent(FlexKeyElem::That("carol".into()), "rose", AccountAssetW::Receive(50)),
            intent(FlexKeyElem::That("alice".into()), "rose", AccountAssetW::Send(100)),
            intent(FlexKeyElem::That("dave".into()), "rose", AccountAssetW::Receive(50)),
        ]
    );
}

#[test]
fn aggregation_keeps_this_and_explicit_keys_apart() {
    let write_set = FlexTree(vec![
        intent(FlexKeyElem::This, "rose", AccountAssetW::Receive(1)),
        intent(FlexKeyElem::That("alice".into()), "rose", AccountAssetW::Send(2)),
    ]);
    let merged = write_set.aggregate().expect("unresolved keys differ");
    assert_eq!(merged.0.len(), 2);
}

#[test]
fn aggregation_rejects_overflowing_sums() {
    let write_set = FlexTree(vec![
        intent(FlexKeyElem::This, "rose", AccountAssetW::Receive(u32::MAX)),
        intent(FlexKeyElem::This, "rose", AccountAssetW::Receive(1)),
    ]);
    assert!(matches!(write_set.aggregate(), Err(Rejection::AmountOverflow)));
    let empty = FlexTree::<sandbox_ledger::tree::Write>(vec![]);
    assert_eq!(empty.aggregate().expect("empty").0.len(), 0);
}

#[test]
fn send_beyond_balance_fails_and_changes_nothing() {
    let mut world = world();
    let authority = SingleKey("bob".into());
    let request = FlexTree(vec![
        intent(FlexKeyElem::That("carol".into()), "rose", AccountAssetW::Receive(5)),
        intent(FlexKeyElem::This, "rose", AccountAssetW::Send(101)),
    ]);
    assert!(matches!(world.write(&request, &authority), Err(Rejection::InsufficientBalance)));
    assert_eq!(world.account_asset, account_asset());

    let request = FlexTree(vec![intent(FlexKeyElem::This, "tulip", AccountAssetW::Send(1))]);
    assert!(matches!(world.write(&request, &authority), Err(Rejection::InsufficientBalance)));
    assert_eq!(world.account_asset, account_asset());
}

#[test]
fn receive_creates_records_and_saturates() {
    let mut world = world();
    let authority = SingleKey("eve".into());
    let request = FlexTree(vec![
        intent(FlexKeyElem::This, "rose", AccountAssetW::Receive(7)),
        intent(FlexKeyElem::This, "tulip", AccountAssetW::Receive(u32::MAX)),
    ]);
    assert!(world.write(&request, &authority).is_ok());
    assert_eq!(world.account_asset[4], record("eve", "tulip", u32::MAX));
    assert_eq!(world.account_asset[5], record("eve", "rose", 7));
}

#[test]
fn send_of_whole_balance_leaves_zero() {
    let mut world = world();
    let authority = SingleKey("carol".into());
    let request = FlexTree(vec![intent(FlexKeyElem::This, "rose", AccountAssetW::Send(90))]);
    assert!(world.write(&request, &authority).is_ok());
    assert_eq!(world.account_asset[2], record("carol", "rose", 0));
}

#[test]
fn read_discloses_only_captured_records() {
    let world = world();
    let request = FuzzyTree(vec![
        (
            FuzzyNodeKey::AccountAsset(FuzzyCompositeKey(None, Some("tulip".into()))),
            NodeValue::AccountAsset(AccountAssetR),
        ),
        (
            FuzzyNodeKey::AccountAsset(FuzzyCompositeKey(Some("bob".into()), None)),
            NodeValue::AccountAsset(AccountAssetR),
        ),
    ]);
    let view = world.read(&request);
    assert_eq!(
        view.0,
        vec![
            (
                NodeKey::AccountAsset(CompositeKey("bob".into(), "rose".into())),
                NodeValue::AccountAsset(AccountAssetV { balance: 100 })
            ),
            (
                NodeKey::AccountAsset(CompositeKey("eve".into(), "tulip".into())),
                NodeValue::AccountAsset(AccountAssetV { balance: 90 })
            ),
        ]
    );
    assert_eq!(world.read(&FuzzyTree(vec![])).0.len(), 0);
}

#[test]
fn well_formedness_detects_repeated_keys() {
    let mut world = world();
    assert!(world.is_well_formed());
    world.account_asset.push(record("bob", "rose", 1));
    assert!(!world.is_well_formed());
}

#[test]
fn permission_union_merges_by_pattern() {
    let mut world = world();
    world.account_permission.push(CompositeKey("alice".into(), "inspector".into()));
    let cap = world.permission(&SingleKey("alice".into()));
    assert_eq!(
        cap.0,
        vec![
            grant(None, None, 0b0000_0011),
            grant(Some(FlexKeyElem::This), None, 0b0000_0111),
        ]
    );
    assert!(world.has_role(&SingleKey("alice".into()), &SingleKey("inspector".into())));
    assert!(!world.has_role(&SingleKey("bob".into()), &SingleKey("inspector".into())));
    assert_eq!(world.permission(&SingleKey("nobody".into())).0.len(), 0);
}

#[test]
fn permission_union_ignores_role_order() {
    let mut forward = world();
    forward.account_permission.push(CompositeKey("alice".into(), "inspector".into()));
    let mut backward = forward.clone();
    backward.permission.reverse();
    backward.account_permission.reverse();
    let a = forward.permission(&SingleKey("alice".into()));
    let mut b = backward.permission(&SingleKey("alice".into()));
    b.0.sort_by(|x, y| x.0.cmp(&y.0));
    let mut a_sorted = a.0.clone();
    a_sorted.sort_by(|x, y| x.0.cmp(&y.0));
    assert_eq!(a_sorted, b.0);
}

#[test]
fn write_approval_needs_every_event() {
    let allow = FuzzyTree(vec![
        (
            FuzzyNodeKey::AccountAsset(FuzzyCompositeKey(None, None)),
            NodeValue::AccountAsset(AccountAssetA { bit_mask: 0b0000_0010 }),
        ),
        (
            FuzzyNodeKey::AccountAsset(FuzzyCompositeKey(Some("alice".into()), None)),
            NodeValue::AccountAsset(AccountAssetA { bit_mask: 0b0000_0100 }),
        ),
    ]);
    let event = |a: &str, e: AccountAssetE| {
        (NodeKey::AccountAsset(CompositeKey(a.into(), "rose".into())), NodeValue::AccountAsset(e))
    };
    let ok: EventSet = Tree(vec![event("alice", AccountAssetE::Send), event("bob", AccountAssetE::Receive)]);
    assert!(Authorizer::write_approval(&ok, &allow));
    let bad: EventSet = Tree(vec![event("alice", AccountAssetE::Send), event("bob", AccountAssetE::Send)]);
    assert!(!Authorizer::write_approval(&bad, &allow));
    let duplicates: EventSet = Tree(vec![event("alice", AccountAssetE::Send), event("alice", AccountAssetE::Send)]);
    assert!(Authorizer::write_approval(&duplicates, &allow));
    assert!(Authorizer::write_approval(&Tree(vec![]), &allow));
    assert!(!Authorizer::write_approval(&Tree(vec![event("alice", AccountAssetE::Mint)]), &allow));
    assert!(!Authorizer::write_approval(&Tree(vec![event("alice", AccountAssetE::Send)]), &FuzzyTree(vec![])));
}

#[test]
fn read_approval_needs_read_bit_on_a_capturing_grant() {
    let allow = FuzzyTree(vec![
        (
            FuzzyNodeKey::AccountAsset(FuzzyCompositeKey(None, None)),
            NodeValue::AccountAsset(AccountAssetA { bit_mask: 0b0000_0010 }),
        ),
        (
            FuzzyNodeKey::AccountAsset(FuzzyCompositeKey(Some("alice".into()), None)),
            NodeValue::AccountAsset(AccountAssetA { bit_mask: 0b0000_0111 }),
        ),
    ]);
    let ask = |a: Option<&str>, b: Option<&str>| {
        FuzzyTree(vec![(
            FuzzyNodeKey::AccountAsset(FuzzyCompositeKey(a.map(|s| s.into()), b.map(|s| s.into()))),
            NodeValue::AccountAsset(AccountAssetR),
        )])
    };
    assert!(Authorizer::read_approval(&ask(Some("alice"), Some("rose")), &allow));
    assert!(!Authorizer::read_approval(&ask(None, Some("rose")), &allow));
    assert!(!Authorizer::read_approval(&ask(Some("bob"), None), &allow));
    assert!(Authorizer::read_approval(&FuzzyTree(vec![]), &FuzzyTree(vec![])));
}

#[test]
fn events_follow_intents_on_resolved_keys() {
    let write_set = FlexTree(vec![
        intent(FlexKeyElem::This, "rose", AccountAssetW::Receive(5)),
        intent(FlexKeyElem::That("bob".into()), "rose", AccountAssetW::Send(5)),
        intent(FlexKeyElem::This, "rose", AccountAssetW::Receive(5)),
    ]);
    let events = EventSet::from_writes(&write_set, &SingleKey("alice".into()));
    let key = |a: &str| NodeKey::AccountAsset(CompositeKey(a.into(), "rose".into()));
    assert_eq!(
        events.0,
        vec![
            (key("alice"), NodeValue::AccountAsset(AccountAssetE::Receive)),
            (key("bob"), NodeValue::AccountAsset(AccountAssetE::Send)),
            (key("alice"), NodeValue::AccountAsset(AccountAssetE::Receive)),
        ]
    );
    assert_eq!(AccountAssetE::Read.status_bit(), 0b0000_0001);
    assert_eq!(AccountAssetE::Receive.status_bit(), 0b0000_0010);
    assert_eq!(AccountAssetE::Send.status_bit(), 0b0000_0100);
    assert_eq!(AccountAssetE::Mint.status_bit(), 0b0001_0000);
    assert_eq!(AccountAssetE::Burn.status_bit(), 0b0010_0000);
    assert_eq!(AccountAssetE::from_status_bit(0b0000_0100), Some(AccountAssetE::Send));
    assert_eq!(AccountAssetE::from_status_bit(0b0001_0000), Some(AccountAssetE::Mint));
    assert_eq!(AccountAssetE::from_status_bit(0b0000_1000), None);
    assert_eq!(AccountAssetE::from_status_bit(0), None);
}

#[test]
fn capability_resolves_this_against_authority() {
    let grants = FlexFuzzyTree(vec![
        grant(Some(FlexKeyElem::This), None, 7),
        grant(Some(FlexKeyElem::That("bob".into())), Some("rose"), 1),
    ]);
    let resolved = grants.resolve(&"alice".to_string());
    assert_eq!(
        resolved.0,
        vec![
            (
                FuzzyNodeKey::AccountAsset(FuzzyCompositeKey(Some("alice".into()), None)),
                NodeValue::AccountAsset(AccountAssetA { bit_mask: 7 })
            ),
            (
                FuzzyNodeKey::AccountAsset(FuzzyCompositeKey(Some("bob".into()), Some("rose".into()))),
                NodeValue::AccountAsset(AccountAssetA { bit_mask: 1 })
            ),
        ]
    );
}

#[test]
fn supply_instruction_requests_and_writes() {
    let args = supply("alice");
    let read = args.read_request();
    assert_eq!(
        read.0,
        vec![(
            FuzzyNodeKey::AccountAsset(FuzzyCompositeKey(None, Some("rose".into()))),
            NodeValue::AccountAsset(AccountAssetR)
        )]
    );
    let view = Tree(vec![
        (
            NodeKey::AccountAsset(CompositeKey("bob".into(), "rose".into())),
            NodeValue::AccountAsset(AccountAssetV { balance: 100 }),
        ),
        (
            NodeKey::AccountAsset(CompositeKey("carol".into(), "rose".into())),
            NodeValue::AccountAsset(AccountAssetV { balance: 99 }),
        ),
    ]);
    let writes = args.write_request(&view);
    assert_eq!(
        writes.0,
        vec![
            intent(FlexKeyElem::That("carol".into()), "rose", AccountAssetW::Receive(50)),
            intent(FlexKeyElem::That("alice".into()), "rose", AccountAssetW::Send(50)),
        ]
    );
}

#[test]
fn supplier_short_of_funds_rejects_commit() {
    let mut world = world();
    world.account_permission.push(CompositeKey("alice".into(), "almighty".into()));
    let mut args = supply("bob");
    args.supply_amount = 60;
    let res = execute(&mut world, SingleKey("alice".into()), &args);
    assert!(matches!(res, Err(Rejection::InsufficientBalance)));
    assert_eq!(world.account_asset, account_asset());
}

#[test]
fn conflict_is_reported_even_after_an_overflow() {
    let key = || FlexKeyElem::That("alice".into());
    let first = FlexTree(vec![
        intent(key(), "rose", AccountAssetW::Receive(u32::MAX)),
        intent(key(), "rose", AccountAssetW::Receive(1)),
        intent(key(), "rose", AccountAssetW::Send(1)),
    ]);
    assert!(matches!(first.aggregate(), Err(Rejection::AggregationConflict)));
    let reordered = FlexTree(vec![
        intent(key(), "rose", AccountAssetW::Receive(u32::MAX)),
        intent(key(), "rose", AccountAssetW::Send(1)),
        intent(key(), "rose", AccountAssetW::Receive(1)),
    ]);
    assert!(matches!(reordered.aggregate(), Err(Rejection::AggregationConflict)));
}

#[test]
fn mixed_request_is_rejected_at_commit_and_changes_nothing() {
    let mut world = world();
    world.account_permission.push(CompositeKey("alice".into(), "almighty".into()));
    let request = FuzzyTree(vec![(
        FuzzyNodeKey::AccountAsset(FuzzyCompositeKey(None, None)),
        NodeValue::AccountAsset(AccountAssetR),
    )]);
    let has_read = initiate(SingleKey("alice".into()))
        .read_request(request)
        .read_approval(&world)
        .expect("read request should be approved")
        .read(&world)
        .expect("should read");
    let intents = FlexTree(vec![
        intent(FlexKeyElem::This, "rose", AccountAssetW::Receive(u32::MAX)),
        intent(FlexKeyElem::This, "rose", AccountAssetW::Receive(1)),
        intent(FlexKeyElem::This, "rose", AccountAssetW::Send(1)),
    ]);
    let res = has_read
        .write_request(intents)
        .write_approval()
        .expect("write request should be approved")
        .write(&mut world);
    assert!(matches!(res, Err(Rejection::AggregationConflict)));
    assert_eq!(world.account_asset, account_asset());
}

#[test]
fn swapping_grants_of_held_roles_keeps_capability() {
    let mut before = world();
    before.account_permission.push(CompositeKey("alice".into(), "inspector".into()));
    let mut after = before.clone();
    let inspector = after.permission[1].1.clone();
    after.permission[1].1 = after.permission[2].1.clone();
    after.permission[2].1 = inspector;
    let mut a = before.permission(&SingleKey("alice".into())).0;
    let mut b = after.permission(&SingleKey("alice".into())).0;
    a.sort_by(|x, y| x.0.cmp(&y.0));
    b.sort_by(|x, y| x.0.cmp(&y.0));
    assert_eq!(a, b);
}

#[test]
fn grouping_held_roles_into_one_keeps_capability() {
    let mut before = world();
    before.account_permission.push(CompositeKey("alice".into(), "inspector".into()));
    let mut after = world();
    after.account_permission.retain(|k| k.0 != "alice");
    after.permission.push((
        SingleKey("inspecting_everyman".into()),
        PermissionV {
            permission: FlexFuzzyTree(vec![
                grant(None, None, 0b0000_0011),
                grant(Some(FlexKeyElem::This), None, 0b0000_0111),
            ]),
        },
    ));
    after.account_permission.push(CompositeKey("alice".into(), "inspecting_everyman".into()));
    let mut a = before.permission(&SingleKey("alice".into())).0;
    let mut b = after.permission(&SingleKey("alice".into())).0;
    a.sort_by(|x, y| x.0.cmp(&y.0));
    b.sort_by(|x, y| x.0.cmp(&y.0));
    assert_eq!(a, b);
}
