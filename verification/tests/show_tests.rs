use sora::show::{Aggregate, Filter};

#[test]
fn aggregate_from_str_accepts_known_words() {
    for word in ["usr", "user", "users"] {
        assert_eq!(Ok(Aggregate::Users), Aggregate::from_str(word));
    }
    for word in ["ofc", "office", "offices"] {
        assert_eq!(Ok(Aggregate::Offices), Aggregate::from_str(word));
    }
    assert_eq!(Ok(Aggregate::OfficeSplit), Aggregate::from_str("spl"));
    for word in ["agr", "contract", "contracts"] {
        assert_eq!(Ok(Aggregate::Contracts), Aggregate::from_str(word));
    }
    assert_eq!(Err(()), Aggregate::from_str("nonsense"));
    assert_eq!(Err(()), Aggregate::from_str(""));
}

#[test]
fn aggregate_condition_only_for_splits() {
    assert_eq!(
        Some("parent_office_id is not null"),
        Aggregate::OfficeSplit.condition()
    );
    assert_eq!(None, Aggregate::Users.condition());
    assert_eq!(None, Aggregate::Offices.condition());
    assert_eq!(None, Aggregate::Contracts.condition());
}

#[test]
fn aggregate_table_names() {
    assert_eq!("contracts", Aggregate::Contracts.table_name());
    assert_eq!("offices", Aggregate::Offices.table_name());
    assert_eq!("offices", Aggregate::OfficeSplit.table_name());
    assert_eq!("users", Aggregate::Users.table_name());
}

#[test]
fn filter_from_str_parses_words_and_identifiers() {
    assert_eq!(
        Ok(Filter::Aggregate(Aggregate::Users)),
        Filter::from_str("user")
    );
    let parsed = Filter::from_str("agr-22795DC7-E972-44D7-A74B-553EA6589044");
    match parsed {
        Ok(Filter::Id(Aggregate::Contracts, token)) => {
            // the token is the parsed identifier, not an echo of the input
            assert_eq!(token, 0x22795DC7_E972_44D7_A74B_553EA6589044u128);
        }
        _ => assert!(false),
    }
    assert_eq!(Err(()), Filter::from_str("agr-not-a-uuid"));
    assert_eq!(Err(()), Filter::from_str("zzz"));
}
