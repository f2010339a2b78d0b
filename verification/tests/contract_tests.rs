use sora::contract::{
    Contract, ContractDuration, ContractDurationError, ContractError, CONTRACT_DURATION_MINIMUM_DAYS,
};
use sora::date::Date;
use sora::id::{OfficeId, RealOfficeId, UserId};
use sora::user::UserOfficeRelation;

fn date(y: i32, m: u32, d: u32) -> Date {
    Date::from_ymd(y, m, d).unwrap()
}

fn create_contract(start: Date, end: Date) -> Result<Contract, ContractError> {
    Contract::new(
        UserId::new(),
        UserId::new(),
        OfficeId::RealOffice(RealOfficeId::new()),
        30000,
        start,
        end,
    )
}

#[test]
pub fn test_valid_duration() {
    for (start, end) in [((1, 1), (5, 1)), ((1, 1), (12, 31))] {
        let start = date(2024, start.0, start.1);
        let end = date(2024, end.0, end.1);
        let contract = create_contract(start, end);

        if let Ok(contract) = contract {
            assert_eq!(start, contract.start());
            assert_eq!(end, contract.end());
            assert!(contract.duration() >= CONTRACT_DURATION_MINIMUM_DAYS);
        } else {
            assert!(false);
        }
    }
}

#[test]
pub fn test_invalid_duration() {
    for (start, end) in [((1, 1), (4, 29)), ((1, 1), (1, 1)), ((1, 1), (1, 2))] {
        let start = date(2024, start.0, start.1);
        let end = date(2024, end.0, end.1);
        let contract = create_contract(start, end);

        if let Err(err) = contract {
            assert_eq!(err, ContractError::TooShort { days: end.days - start.days });
        } else {
            assert!(false);
        }
    }
}

#[test]
pub fn test_contract_duration_type() {
    let start = date(2024, 1, 1);
    let ok = ContractDuration::new(start, date(2024, 5, 1)).unwrap();
    assert_eq!(ok.start, start);
    assert_eq!(ok.end, date(2024, 5, 1));
    assert_eq!(
        Err(ContractDurationError::TooShort),
        ContractDuration::new(start, date(2024, 4, 29))
    );
}

#[test]
fn contract_relation_of_users() {
    let host = UserId::new();
    let guest = UserId::new();
    let outsider = UserId::new();
    let contract = Contract::new(
        host,
        guest,
        OfficeId::RealOffice(RealOfficeId::new()),
        30000,
        date(2024, 1, 1),
        date(2024, 6, 1),
    )
    .unwrap();
    assert_eq!(contract.relation_of(host), Some(UserOfficeRelation::Host));
    assert_eq!(contract.relation_of(guest), Some(UserOfficeRelation::Guest));
    assert_eq!(contract.relation_of(outsider), None);
}

#[test]
fn for_office_derives_host_and_rent() {
    let owner = UserId::new();
    let office = sora::office::Office::new_real(
        "yo".to_string(),
        "10 my address".to_string(),
        0,
        0,
        owner,
        120,
        500,
        30_000,
    )
    .unwrap();
    let guest = UserId::new();
    let contract =
        Contract::for_office(&office, guest, date(2024, 1, 1), date(2024, 6, 1)).unwrap();
    assert_eq!(contract.host(), owner);
    assert_eq!(contract.guest(), guest);
    assert_eq!(contract.office(), office.id());
    assert_eq!(contract.rent(), 120 * 30_000);
    assert_eq!(contract.date_range().start, date(2024, 1, 1));
    assert_eq!(contract.date_range().end, date(2024, 6, 1));
}
