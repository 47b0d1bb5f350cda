//! How the initiatives are downloaded: the address of each page, and
//! which page to ask for next after each answer.

use vstd::prelude::*;
use crate::json_items::{items_view, parse_json_array, parsed_json_array, JsonItem};
use crate::text::{concat, decimal_i64, decimal_text};

verus! {

/// The first page of initiatives.
pub const FIRST_PAGE: i32 = 1;

/// The last page that is asked for.
pub const LAST_PAGE: i32 = 99;

/// How many times a page is asked for before it is given up.
pub const ATTEMPTS_PER_PAGE: i32 = 4;

/// One request of a page of initiatives: which page, and which attempt
/// at it.
#[derive(Debug, Clone, Copy, PartialEq, Eq)]
pub struct PageRequest {
    pub page: i32,
    pub attempt: i32,
}

/// What one request gave.
#[derive(Debug, Clone, Copy, PartialEq, Eq)]
pub enum FetchOutcome {
    /// The request or the parse of its answer failed.
    Failed,
    /// The page holds no initiative.
    Empty,
    /// The page holds initiatives; they are added to the result.
    Items,
}

/// A request that the download can make.
pub open spec fn valid_request(r: PageRequest) -> bool {
    &&& FIRST_PAGE <= r.page <= LAST_PAGE
    &&& 1 <= r.attempt <= ATTEMPTS_PER_PAGE
}

/// The request after `cur` gave `outcome`, or `None` when the download
/// is over: an empty page ends it; a page with initiatives moves to the
/// next page; a failure tries the page again, up to four times, then
/// moves on; nothing comes after the last page.
pub open spec fn next_request_spec(cur: PageRequest, outcome: FetchOutcome) -> Option<PageRequest> {
    match outcome {
        FetchOutcome::Empty => None,
        FetchOutcome::Items => if cur.page < LAST_PAGE {
            Some(PageRequest { page: (cur.page + 1) as i32, attempt: 1 })
        } else {
            None
        },
        FetchOutcome::Failed => if cur.attempt < ATTEMPTS_PER_PAGE {
            Some(PageRequest { page: cur.page, attempt: (cur.attempt + 1) as i32 })
        } else if cur.page < LAST_PAGE {
            Some(PageRequest { page: (cur.page + 1) as i32, attempt: 1 })
        } else {
            None
        },
    }
}

/// The first request of a download.
pub fn first_request() -> (r: PageRequest)
    ensures
        r == (PageRequest { page: FIRST_PAGE, attempt: 1 }),
        valid_request(r),
{
    PageRequest { page: FIRST_PAGE, attempt: 1 }
}

/// The request after `cur` gave `outcome`, or `None` when the download
/// is over.
pub fn next_request(cur: PageRequest, outcome: FetchOutcome) -> (r: Option<PageRequest>)
    requires
        valid_request(cur),
    ensures
        r == next_request_spec(cur, outcome),
        r matches Some(n) ==> valid_request(n),
{
    match outcome {
        FetchOutcome::Empty => None,
        FetchOutcome::Items => {
            if cur.page < LAST_PAGE {
                Some(PageRequest { page: cur.page + 1, attempt: 1 })
            } else {
                None
            }
        },
        FetchOutcome::Failed => {
            if cur.attempt < ATTEMPTS_PER_PAGE {
                Some(PageRequest { page: cur.page, attempt: cur.attempt + 1 })
            } else if cur.page < LAST_PAGE {
                Some(PageRequest { page: cur.page + 1, attempt: 1 })
            } else {
                None
            }
        },
    }
}

/// How many more requests a download can make after `r`.
pub open spec fn requests_left(r: PageRequest) -> int {
    (LAST_PAGE - r.page) * ATTEMPTS_PER_PAGE + (ATTEMPTS_PER_PAGE - r.attempt)
}

/// Every step makes one of the requests left: a download makes at most
/// `LAST_PAGE * ATTEMPTS_PER_PAGE` requests and always ends.
pub proof fn law_download_ends(cur: PageRequest, outcome: FetchOutcome)
    requires
        valid_request(cur),
    ensures
        0 <= requests_left(cur) < LAST_PAGE * ATTEMPTS_PER_PAGE,
        next_request_spec(cur, outcome) matches Some(n) ==> 0 <= requests_left(n) < requests_left(cur),
{
}

/// Pages are asked for in order: a step never goes back to an earlier
/// page, and it leaves a page only after initiatives came from it or its
/// last attempt failed.
pub proof fn law_pages_in_order(cur: PageRequest, outcome: FetchOutcome)
    requires
        valid_request(cur),
    ensures
        next_request_spec(cur, outcome) matches Some(n) ==> n.page == cur.page || n.page == cur.page + 1,
        next_request_spec(cur, outcome) matches Some(n) && n.page == cur.page + 1 ==> outcome
            == FetchOutcome::Items || cur.attempt == ATTEMPTS_PER_PAGE,
        outcome == FetchOutcome::Empty ==> next_request_spec(cur, outcome) is None,
{
}

/// What comes after each request: initiatives move the download to the
/// next page at its first attempt, whatever attempt brought them; a
/// failure tries the same page again until its fourth attempt and then
/// moves to the next page; the download ends only on an empty page, or
/// after the last page gave initiatives or failed for the fourth time.
pub proof fn law_next_request_steps(cur: PageRequest, outcome: FetchOutcome)
    requires
        valid_request(cur),
    ensures
        outcome == FetchOutcome::Items && cur.page < LAST_PAGE ==> next_request_spec(cur, outcome) == Some(
            PageRequest { page: (cur.page + 1) as i32, attempt: 1 },
        ),
        outcome == FetchOutcome::Failed && cur.attempt < ATTEMPTS_PER_PAGE ==> next_request_spec(cur, outcome)
            == Some(PageRequest { page: cur.page, attempt: (cur.attempt + 1) as i32 }),
        outcome == FetchOutcome::Failed && cur.attempt == ATTEMPTS_PER_PAGE && cur.page < LAST_PAGE
            ==> next_request_spec(cur, outcome) == Some(PageRequest { page: (cur.page + 1) as i32, attempt: 1 }),
        next_request_spec(cur, outcome) is None <==> (outcome == FetchOutcome::Empty || (cur.page == LAST_PAGE && (
        outcome == FetchOutcome::Items || cur.attempt == ATTEMPTS_PER_PAGE))),
{
}

/// The address of a page of initiatives, filtered by status when one is
/// given.
pub open spec fn initiatives_url_text(page: int, status: Option<Seq<char>>) -> Seq<char> {
    "http://ar.rostov-gorod.ru/initiatives.json?filter%5Binitiative_from%5D=&order=1&page="@
        + decimal_text(page) + match status {
        Some(s) => "&filter%5Baasm_state%5D="@ + s,
        None => Seq::empty(),
    }
}

/// The address of a page of initiatives, filtered by status when one is
/// given.
pub fn initiatives_url(page: i32, status: Option<&str>) -> (r: String)
    ensures
        r@ == initiatives_url_text(page as int, match status {
            Some(s) => Some(s@),
            None => None,
        }),
{
    let head = concat(
        "http://ar.rostov-gorod.ru/initiatives.json?filter%5Binitiative_from%5D=&order=1&page=",
        decimal_i64(page as i64).as_str(),
    );
    match status {
        Some(s) => {
            let filter = concat("&filter%5Baasm_state%5D=", s);
            concat(head.as_str(), filter.as_str())
        },
        None => {
            proof {
                assert(head@ + Seq::<char>::empty() =~= head@);
            }
            head
        },
    }
}

/// The text that `std::str::from_utf8` reads from bytes, or `None` where
/// they are not UTF-8.
pub uninterp spec fn utf8_text(bytes: Seq<u8>) -> Option<Seq<char>>;

/// Decodes bytes as UTF-8 with `std::str::from_utf8`. Claimed: the named
/// text, where there is one.
#[verifier::external_body]
fn decode_utf8(bytes: &[u8]) -> (r: Option<&str>)
    ensures
        r is Some <==> utf8_text(bytes@) is Some,
        r matches Some(s) ==> utf8_text(bytes@) == Some(s@),
{
    std::str::from_utf8(bytes).ok()
}

/// The initiatives of the body of a page: `None` where the body is not
/// UTF-8 or not a JSON array.
pub fn parse_page(body: &[u8]) -> (r: Option<Vec<JsonItem>>)
    ensures
        r is Some <==> (utf8_text(body@) matches Some(t) && parsed_json_array(t) is Some),
        r matches Some(items) ==> items_view(items@) == parsed_json_array(utf8_text(body@)->0)->0,
{
    match decode_utf8(body) {
        Some(text) => match parse_json_array(text) {
            Ok(items) => Some(items),
            Err(_) => None,
        },
        None => None,
    }
}

/// What a page gave: a failure where its body did not parse, an empty
/// page, or initiatives.
pub fn page_outcome(page: &Option<Vec<JsonItem>>) -> (o: FetchOutcome)
    ensures
        o == match page {
            None => FetchOutcome::Failed,
            Some(items) => if items@.len() == 0 {
                FetchOutcome::Empty
            } else {
                FetchOutcome::Items
            },
        },
{
    match page {
        None => FetchOutcome::Failed,
        Some(items) => {
            if items.len() == 0 {
                FetchOutcome::Empty
            } else {
                FetchOutcome::Items
            }
        },
    }
}

} // verus!
