//! Pagination and sort-column helpers shared by the listing endpoints.
use vstd::prelude::*;

verus! {

/// Default page size when the caller gives none.
pub const TAKE_DEF: u64 = 20;

/// Largest page size a caller may ask for.
pub const TAKE_MAX: u64 = 100;

/// Default offset when the caller gives none.
pub const SKIP_DEF: u64 = 0;

/// Query-string parameters shared by the listing endpoints. Fields the
/// client omitted (or sent as blank strings) arrive as `None`.
pub struct QueryParams {
    pub skip: Option<u64>,
    pub take: Option<u64>,
    pub sort: Option<String>,
    pub desc: Option<bool>,
    pub q: Option<String>,
}

/// Sort direction of a listing.
#[derive(Clone, Copy, Debug, PartialEq, Eq, Structural)]
pub enum Order {
    Asc,
    Desc,
}

/// Resolves the caller's sort direction, falling back to the endpoint's
/// default.
pub fn order(desc: Option<bool>, default: bool) -> (r: Order)
    ensures
        r == (if (match desc {
            Some(d) => d,
            None => default,
        }) {
            Order::Desc
        } else {
            Order::Asc
        }),
{
    let is_desc = match desc {
        Some(d) => d,
        None => default,
    };
    if is_desc {
        Order::Desc
    } else {
        Order::Asc
    }
}

/// A column of the session listing a caller may sort by.
#[derive(Clone, Copy, Debug, PartialEq, Eq, Structural)]
pub enum SortColumn {
    Id,
    UserId,
    Agent,
    CreatedAt,
    UpdatedAt,
}

/// The column a sort-parameter string names, if any.
pub open spec fn spec_column(s: Seq<char>) -> Option<SortColumn> {
    if s == "id"@ {
        Some(SortColumn::Id)
    } else if s == "user_id"@ {
        Some(SortColumn::UserId)
    } else if s == "agent"@ {
        Some(SortColumn::Agent)
    } else if s == "created_at"@ {
        Some(SortColumn::CreatedAt)
    } else if s == "updated_at"@ {
        Some(SortColumn::UpdatedAt)
    } else {
        None
    }
}

/// Resolves the caller's sort request: an unknown or missing column name
/// falls back to the default.
pub fn column(column_opt: Option<String>, default: SortColumn) -> (r: SortColumn)
    ensures
        r == (match column_opt {
            Some(s) => match spec_column(s@) {
                Some(c) => c,
                None => default,
            },
            None => default,
        }),
{
    let s = match column_opt {
        Some(s) => s,
        None => {
            return default;
        },
    };
    if s.eq(&"id".to_owned()) {
        SortColumn::Id
    } else if s.eq(&"user_id".to_owned()) {
        SortColumn::UserId
    } else if s.eq(&"agent".to_owned()) {
        SortColumn::Agent
    } else if s.eq(&"created_at".to_owned()) {
        SortColumn::CreatedAt
    } else if s.eq(&"updated_at".to_owned()) {
        SortColumn::UpdatedAt
    } else {
        default
    }
}

/// Resolves the caller's paging request: missing values fall back to the
/// defaults, and `take` is clamped to `TAKE_MAX`.
pub fn skip(skip_opt: Option<u64>, take_opt: Option<u64>) -> (r: (u64, u64))
    ensures
        r.0 == (match skip_opt {
            Some(s) => s,
            None => SKIP_DEF,
        }),
        r.1 == (match take_opt {
            Some(t) => if t > TAKE_MAX { TAKE_MAX } else { t },
            None => TAKE_DEF,
        }),
{
    let skip: u64 = match skip_opt {
        Some(s) => s,
        None => SKIP_DEF,
    };
    let mut take: u64 = match take_opt {
        Some(t) => t,
        None => TAKE_DEF,
    };

    if take > TAKE_MAX {
        take = TAKE_MAX;
    }

    (skip, take)
}

} // verus!
