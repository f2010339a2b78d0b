use sora::contract::Contract;
use sora::date::{Date, Timestamp};
use sora::id::{ContractId, OfficeId, RealOfficeId, UserId};
use sora::office::Office;
use sora::simulation::{contracts_valid, locked_days_for_user, Simulation};
use sora::user::User;

fn date(y: i32, m: u32, d: u32) -> Date {
    Date::from_ymd(y, m, d).unwrap()
}

fn user(value: u128, name: &str) -> User {
    User::new_unchecked(
        UserId::from_value(value),
        Timestamp { micros: 0 },
        name.to_string(),
        "Tester".to_string(),
    )
}

fn office(value: u128, owner: UserId) -> Office {
    Office::new_unchecked(
        OfficeId::RealOffice(RealOfficeId::from_value(value)),
        Timestamp { micros: 0 },
        "office".to_string(),
        "1 engine street".to_string(),
        0,
        0,
        owner,
        120,
        500,
        30_000,
        None,
    )
}

/// One user with zero prior contracts, target 360 days, one candidate
/// office fully free over the horizon: exactly one contract covering the
/// whole target in a single slot.
#[test]
fn single_user_single_office_full_target() {
    let host = user(1, "Holly");
    let guest = user(2, "Gus");
    let offices = vec![office(10, host.id())];
    let users = vec![user(2, "Gus")];
    let simulation = Simulation {
        start: date(2024, 1, 1),
        end: date(2025, 1, 1),
        target_days_in_office: 360,
    };
    let contracts = simulation.simulate(&users, &offices, Vec::new());
    assert_eq!(contracts.len(), 1);
    let contract = &contracts[0];
    assert_eq!(contract.guest(), guest.id());
    assert_eq!(contract.host(), host.id());
    assert_eq!(contract.office(), offices[0].id());
    assert_eq!(contract.rent(), 120 * 30_000);
    assert_eq!(contract.start(), date(2024, 1, 1));
    assert_eq!(contract.end(), date(2024, 12, 26));
    assert_eq!(contract.end().days - contract.start().days, 360);
    assert_eq!(locked_days_for_user(&contracts, guest.id()), 360);
}

/// The candidate office already has a contract with another guest in the
/// middle of the horizon: the search assigns around the busy span,
/// producing two contracts because no single free span covers the target.
#[test]
fn assigns_around_existing_contract() {
    let host = user(1, "Holly");
    let guest = user(2, "Gus");
    let other = user(3, "Olga");
    let offices = vec![office(10, host.id())];
    let users = vec![user(2, "Gus")];
    let existing = Contract::new_unchecked(
        ContractId::from_value(100),
        Timestamp { micros: 0 },
        host.id(),
        other.id(),
        offices[0].id(),
        120 * 30_000,
        date(2024, 3, 1),
        date(2024, 7, 1),
    );
    let simulation = Simulation {
        start: date(2023, 9, 1),
        end: date(2025, 1, 1),
        target_days_in_office: 360,
    };
    let contracts = simulation.simulate(&users, &offices, vec![existing]);
    assert_eq!(contracts.len(), 3);
    // the pre-existing contract is untouched, in place
    assert_eq!(contracts[0].id(), ContractId::from_value(100));
    // first new contract: the free span before the busy one
    assert_eq!(contracts[1].guest(), guest.id());
    assert_eq!(contracts[1].start(), date(2023, 9, 1));
    assert_eq!(contracts[1].end(), date(2024, 3, 1));
    // second new contract: the remainder after the busy span
    assert_eq!(contracts[2].guest(), guest.id());
    assert_eq!(contracts[2].start(), date(2024, 7, 1));
    assert_eq!(contracts[2].end(), date(2024, 12, 26));
    // together they reach the target exactly
    assert_eq!(locked_days_for_user(&contracts, guest.id()), 360);
}

/// No two output contracts sharing an office overlap, nobody rents their
/// own office, and every contract spans at least 120 days.
#[test]
fn output_respects_global_invariants() {
    let alice = user(1, "Alice");
    let bob = user(2, "Bob");
    let carol = user(3, "Carol");
    let offices = vec![office(10, alice.id()), office(11, bob.id())];
    let users = vec![user(1, "Alice"), user(2, "Bob"), user(3, "Carol")];
    let _ = &carol;
    let simulation = Simulation {
        start: date(2024, 1, 1),
        end: date(2025, 1, 1),
        target_days_in_office: 360,
    };
    let contracts = simulation.simulate(&users, &offices, Vec::new());
    assert!(contracts.len() > 0);
    for c in &contracts {
        assert_ne!(c.guest(), c.host());
        assert!(c.end().days - c.start().days >= 120);
        assert!(simulation.start.days <= c.start().days);
        assert!(c.end().days <= simulation.end.days);
    }
    for (i, a) in contracts.iter().enumerate() {
        for b in contracts.iter().skip(i + 1) {
            if a.office() == b.office() {
                assert!(a.end().days <= b.start().days || b.end().days <= a.start().days);
            }
        }
    }
}

/// Two engine runs on identical inputs (same ordering) decide identical
/// output contract lists, apart from the freshly minted identifiers and
/// creation times.
#[test]
fn engine_is_deterministic() {
    let run = || {
        let alice = user(1, "Alice");
        let bob = user(2, "Bob");
        let offices = vec![office(10, alice.id()), office(11, bob.id())];
        let users = vec![user(1, "Alice"), user(2, "Bob")];
        let existing = Contract::new_unchecked(
            ContractId::from_value(100),
            Timestamp { micros: 0 },
            alice.id(),
            bob.id(),
            offices[0].id(),
            120 * 30_000,
            date(2024, 2, 1),
            date(2024, 8, 1),
        );
        let simulation = Simulation {
            start: date(2024, 1, 1),
            end: date(2025, 6, 1),
            target_days_in_office: 360,
        };
        simulation.simulate(&users, &offices, vec![existing])
    };
    let first = run();
    let second = run();
    assert_eq!(first.len(), second.len());
    for (a, b) in first.iter().zip(second.iter()) {
        assert_eq!(a.host(), b.host());
        assert_eq!(a.guest(), b.guest());
        assert_eq!(a.office(), b.office());
        assert_eq!(a.rent(), b.rent());
        assert_eq!(a.start(), b.start());
        assert_eq!(a.end(), b.end());
    }
}

/// With no offices the engine returns the input unchanged, promptly.
#[test]
fn no_offices_means_no_new_contracts() {
    let guest = user(2, "Gus");
    let users = vec![user(2, "Gus")];
    let simulation = Simulation {
        start: date(2024, 1, 1),
        end: date(2025, 1, 1),
        target_days_in_office: 360,
    };
    let contracts = simulation.simulate(&users, &Vec::new(), Vec::new());
    assert_eq!(contracts.len(), 0);
}

/// A user who already meets the target gets nothing new.
#[test]
fn satisfied_user_is_skipped() {
    let host = user(1, "Holly");
    let guest = user(2, "Gus");
    let offices = vec![office(10, host.id())];
    let users = vec![user(2, "Gus")];
    let existing = Contract::new_unchecked(
        ContractId::from_value(100),
        Timestamp { micros: 0 },
        host.id(),
        guest.id(),
        offices[0].id(),
        120 * 30_000,
        date(2024, 1, 1),
        date(2024, 12, 31),
    );
    let simulation = Simulation {
        start: date(2024, 1, 1),
        end: date(2025, 1, 1),
        target_days_in_office: 360,
    };
    let contracts = simulation.simulate(&users, &offices, vec![existing]);
    assert_eq!(contracts.len(), 1);
}

/// The runtime checker mirrors the global invariants exactly.
#[test]
fn contracts_valid_detects_violations() {
    let host = user(1, "Holly");
    let guest = user(2, "Gus");
    let office_id = office(10, host.id()).id();
    let hs = date(2024, 1, 1);
    let he = date(2025, 1, 1);
    let good = Contract::new_unchecked(
        ContractId::from_value(100),
        Timestamp { micros: 0 },
        host.id(),
        guest.id(),
        office_id,
        120 * 30_000,
        date(2024, 1, 1),
        date(2024, 6, 1),
    );
    assert!(contracts_valid(&vec![good], hs, he));

    // self-rental
    let self_rental = Contract::new_unchecked(
        ContractId::from_value(101),
        Timestamp { micros: 0 },
        host.id(),
        host.id(),
        office_id,
        120 * 30_000,
        date(2024, 1, 1),
        date(2024, 6, 1),
    );
    assert!(!contracts_valid(&vec![self_rental], hs, he));

    // too short
    let short = Contract::new_unchecked(
        ContractId::from_value(102),
        Timestamp { micros: 0 },
        host.id(),
        guest.id(),
        office_id,
        120 * 30_000,
        date(2024, 1, 1),
        date(2024, 2, 1),
    );
    assert!(!contracts_valid(&vec![short], hs, he));

    // double-booking the same office
    let first = Contract::new_unchecked(
        ContractId::from_value(103),
        Timestamp { micros: 0 },
        host.id(),
        guest.id(),
        office_id,
        120 * 30_000,
        date(2024, 1, 1),
        date(2024, 6, 1),
    );
    let second = Contract::new_unchecked(
        ContractId::from_value(104),
        Timestamp { micros: 0 },
        host.id(),
        user(3, "Olga").id(),
        office_id,
        120 * 30_000,
        date(2024, 5, 1),
        date(2024, 10, 1),
    );
    assert!(!contracts_valid(&vec![first, second], hs, he));
}
