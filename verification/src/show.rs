use vstd::prelude::*;

use vstd::string::StrSliceExecFns;

verus! {

/// Relies on `<str as PartialEq>::eq`: two string slices compare equal
/// exactly when their character sequences do.
#[verifier::external_body]
fn str_eq(a: &str, b: &str) -> (r: bool)
    ensures
        r == (a@ == b@),
{
    a == b
}

/// The token the `uuid` crate parses out of a string, if any; a pure
/// function of the characters alone.
pub uninterp spec fn parsed_uuid(s: Seq<char>) -> Option<u128>;

/// Relies on `uuid::Uuid::parse_str` (via `as_u128`): parsing either fails
/// or yields the token encoded by the string, depending on the characters
/// alone; the empty string never parses.
#[verifier::external_body]
fn parse_uuid(s: &str) -> (r: Option<u128>)
    ensures
        r == parsed_uuid(s@),
        s@.len() == 0 ==> r is None,
{
    match uuid::Uuid::parse_str(s) {
        Ok(u) => Some(u.as_u128()),
        Err(_) => None,
    }
}

/// One of the data sets the read-only dump command can display.
#[derive(Debug, Clone, Copy, PartialEq, Eq, Structural)]
pub enum Aggregate {
    Contracts,
    Offices,
    OfficeSplit,
    Users,
}

/// The aggregate a filter word names, if any.
pub open spec fn spec_parse_aggregate(s: Seq<char>) -> Option<Aggregate> {
    if s == "usr"@ || s == "user"@ || s == "users"@ {
        Some(Aggregate::Users)
    } else if s == "ofc"@ || s == "office"@ || s == "offices"@ {
        Some(Aggregate::Offices)
    } else if s == "spl"@ {
        Some(Aggregate::OfficeSplit)
    } else if s == "agr"@ || s == "contract"@ || s == "contracts"@ {
        Some(Aggregate::Contracts)
    } else {
        None
    }
}

impl Aggregate {
    /// The extra selection clause a dump of this aggregate needs: split
    /// offices live in the offices table, marked by their parent reference.
    pub fn condition(&self) -> (r: Option<&'static str>)
        ensures
            r is Some <==> self is OfficeSplit,
            r matches Some(c) ==> c@ == "parent_office_id is not null"@,
    {
        match self {
            Aggregate::OfficeSplit => Some("parent_office_id is not null"),
            _ => None,
        }
    }

    /// The table this aggregate is stored in.
    pub fn table_name(&self) -> (r: &'static str)
        ensures
            r@ == (match self {
                Aggregate::Contracts => "contracts"@,
                Aggregate::Offices => "offices"@,
                Aggregate::OfficeSplit => "offices"@,
                Aggregate::Users => "users"@,
            }),
    {
        match self {
            Aggregate::Contracts => "contracts",
            Aggregate::Offices => "offices",
            Aggregate::OfficeSplit => "offices",
            Aggregate::Users => "users",
        }
    }

    /// Parse a filter word: a table name, a singular form, or an identifier
    /// prefix.
    pub fn from_str(s: &str) -> (r: Result<Aggregate, ()>)
        ensures
            r is Ok <==> spec_parse_aggregate(s@) is Some,
            r matches Ok(a) ==> Some(a) == spec_parse_aggregate(s@),
    {
        if str_eq(s, "usr") || str_eq(s, "user") || str_eq(s, "users") {
            Ok(Aggregate::Users)
        } else if str_eq(s, "ofc") || str_eq(s, "office") || str_eq(s, "offices") {
            Ok(Aggregate::Offices)
        } else if str_eq(s, "spl") {
            Ok(Aggregate::OfficeSplit)
        } else if str_eq(s, "agr") || str_eq(s, "contract") || str_eq(s, "contracts") {
            Ok(Aggregate::Contracts)
        } else {
            Err(())
        }
    }
}

/// What the dump command was asked to display: one whole aggregate, one
/// row by identifier, or everything.
#[derive(Debug, Clone, Copy, PartialEq, Eq, Structural)]
pub enum Filter {
    Aggregate(Aggregate),
    Id(Aggregate, u128),
    All,
}

/// The filter a command-line word denotes, if any: either an aggregate
/// word, or an identifier of the form `<3-letter prefix>-<token>`.
pub open spec fn spec_parse_filter(s: Seq<char>) -> Option<Filter> {
    if spec_parse_aggregate(s) is Some {
        Some(Filter::Aggregate(spec_parse_aggregate(s)->Some_0))
    } else if s.len() >= 4 && parsed_uuid(s.skip(4)) is Some && spec_parse_aggregate(
        s.take(3),
    ) is Some {
        Some(Filter::Id(spec_parse_aggregate(s.take(3))->Some_0, parsed_uuid(s.skip(4))->Some_0))
    } else {
        None
    }
}

impl Filter {
    pub fn from_str(s: &str) -> (r: Result<Filter, ()>)
        ensures
            r is Ok <==> spec_parse_filter(s@) is Some,
            r matches Ok(f) ==> Some(f) == spec_parse_filter(s@),
    {
        match Aggregate::from_str(s) {
            Ok(aggregate) => Ok(Filter::Aggregate(aggregate)),
            Err(_) => {
                let n = s.unicode_len();
                if n < 4 {
                    return Err(());
                }
                let prefix = s.substring_char(0, 3);
                let rest = s.substring_char(4, n);
                proof {
                    assert(prefix@ == s@.take(3));
                    assert(rest@ == s@.skip(4));
                }
                match parse_uuid(rest) {
                    None => Err(()),
                    Some(token) => match Aggregate::from_str(prefix) {
                        Ok(aggregate) => Ok(Filter::Id(aggregate, token)),
                        Err(_) => Err(()),
                    },
                }
            },
        }
    }
}

} // verus!
