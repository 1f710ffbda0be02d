//! What is made of the failures of the store.

use crate::error::Error;
use crate::protocol::EventId;
use crate::text::{concat2, contains_text, has_substring, occurs_at};
use vstd::prelude::*;

verus! {

/// A failure of the store.
pub enum StoreFailure {
    /// The store failed. `cause` is what it said, and `text` the failure as a whole.
    Backend { cause: String, text: String },
    /// The store cannot do this.
    NotSupported { text: String },
}

impl StoreFailure {
    /// The failure as a whole.
    pub open spec fn whole(self) -> Seq<char> {
        match self {
            StoreFailure::Backend { cause, text } => text@,
            StoreFailure::NotSupported { text } => text@,
        }
    }

    fn text(&self) -> (r: &str)
        ensures
            r@ == self.whole(),
    {
        match self {
            StoreFailure::Backend { text, .. } => text.as_str(),
            StoreFailure::NotSupported { text } => text.as_str(),
        }
    }
}

/// The error is one of the database, with the given message.
pub open spec fn is_database_error(e: Error, text: Seq<char>) -> bool {
    e matches Error::Database { message } && message@ == text
}

/// What a failure of one query means for the others: nothing where an index names an event that
/// is not there, and an error otherwise.
pub fn after_failed_query(failure: &StoreFailure) -> (r: Option<Error>)
    ensures
        match *failure {
            StoreFailure::Backend { cause, text } => if has_substring(cause@, "Not found"@) {
                r is None
            } else {
                r matches Some(e) && is_database_error(e, "Database backend error: "@ + text@)
            },
            StoreFailure::NotSupported { text } => r matches Some(e) && is_database_error(
                e,
                "Database operation not supported"@,
            ),
        },
{
    match failure {
        StoreFailure::Backend { cause, text } => {
            if contains_text(cause.as_str(), "Not found") {
                None
            } else {
                let message = concat2("Database backend error: ", text.as_str());
                Some(Error::database(message.as_str()))
            }
        },
        StoreFailure::NotSupported { .. } => Some(
            Error::database("Database operation not supported"),
        ),
    }
}

/// The failure says that something was not found.
pub open spec fn says_not_found(text: Seq<char>) -> bool {
    has_substring(text, "Backend(NotFound)"@) || has_substring(text, "NotFound"@) || has_substring(
        text,
        "Not found"@,
    )
}

fn is_not_found(text: &str) -> (r: bool)
    ensures
        r == says_not_found(text@),
{
    contains_text(text, "Backend(NotFound)") || contains_text(text, "NotFound") || contains_text(
        text,
        "Not found",
    )
}

/// The sum of the counts before the first failure that ends the counting, and that failure. A
/// failure that says that something was not found counts as zero.
pub open spec fn counted(results: Seq<Result<usize, StoreFailure>>) -> (nat, Option<Seq<char>>)
    decreases results.len(),
{
    if results.len() == 0 {
        (0, None)
    } else {
        let before = counted(results.drop_last());
        if before.1 is Some {
            before
        } else {
            match results.last() {
                Ok(n) => (before.0 + n as nat, None),
                Err(failure) => if says_not_found(failure.whole()) {
                    before
                } else {
                    (before.0, Some(failure.whole()))
                },
            }
        }
    }
}

/// The number of events that several filters select, given the count of each.
pub fn total_count(results: &Vec<Result<usize, StoreFailure>>) -> (r: Result<usize, Error>)
    requires
        counted(results@).0 <= usize::MAX,
    ensures
        match counted(results@).1 {
            None => r matches Ok(n) && n == counted(results@).0,
            Some(text) => r matches Err(e) && is_database_error(
                e,
                "Failed to count events: "@ + text,
            ),
        },
{
    let mut total: usize = 0;
    let mut i: usize = 0;
    proof {
        assert(results@.take(0) =~= Seq::empty());
    }
    while i < results.len()
        invariant
            i <= results@.len(),
            counted(results@).0 <= usize::MAX,
            counted(results@.take(i as int)) == (total as nat, None::<Seq<char>>),
        decreases results@.len() - i,
    {
        proof {
            assert(results@.take(i + 1).drop_last() =~= results@.take(i as int));
            assert(results@.take(i + 1).last() == results@[i as int]);
            lemma_counted_grows(results@, i + 1);
        }
        match &results[i] {
            Ok(n) => {
                total = total + *n;
            },
            Err(failure) => {
                if !is_not_found(failure.text()) {
                    proof {
                        lemma_counted_ends(results@, i + 1);
                    }
                    let message = concat2("Failed to count events: ", failure.text());
                    return Err(Error::database(message.as_str()));
                }
            },
        }
        i = i + 1;
    }
    proof {
        assert(results@.take(results@.len() as int) =~= results@);
    }
    Ok(total)
}

proof fn lemma_counted_grows(results: Seq<Result<usize, StoreFailure>>, n: int)
    requires
        0 <= n <= results.len(),
    ensures
        counted(results.take(n)).0 <= counted(results).0,
    decreases results.len() - n,
{
    if n == results.len() {
        assert(results.take(n) =~= results);
    } else {
        lemma_counted_grows(results, n + 1);
        assert(results.take(n + 1).drop_last() =~= results.take(n));
    }
}

proof fn lemma_counted_ends(results: Seq<Result<usize, StoreFailure>>, n: int)
    requires
        0 <= n <= results.len(),
        counted(results.take(n)).1 is Some,
    ensures
        counted(results) == counted(results.take(n)),
    decreases results.len() - n,
{
    if n == results.len() {
        assert(results.take(n) =~= results);
    } else {
        assert(results.take(n + 1).drop_last() =~= results.take(n));
        lemma_counted_ends(results, n + 1);
    }
}

/// The events for a reconciliation, given what the store found: none where it says that
/// something was not found.
pub fn negentropy_items(found: Result<Vec<(EventId, u64)>, StoreFailure>) -> (r: Result<
    Vec<(EventId, u64)>,
    Error,
>)
    ensures
        match found {
            Ok(items) => r == Ok::<Vec<(EventId, u64)>, Error>(items),
            Err(failure) => if says_not_found(failure.whole()) {
                r matches Ok(items) && items@.len() == 0
            } else {
                r matches Err(e) && is_database_error(
                    e,
                    "Failed to get negentropy items: "@ + failure.whole(),
                )
            },
        },
{
    match found {
        Ok(items) => Ok(items),
        Err(failure) => {
            if is_not_found(failure.text()) {
                Ok(Vec::new())
            } else {
                let message = concat2("Failed to get negentropy items: ", failure.text());
                Err(Error::database(message.as_str()))
            }
        },
    }
}

/// The error that a scope cannot be opened.
pub fn scope_failure(text: &str) -> (r: Error)
    ensures
        is_database_error(r, "Failed to get scoped view: "@ + text@),
{
    let message = concat2("Failed to get scoped view: ", text);
    Error::database(message.as_str())
}

/// Counts add up over the filters, up to the first failure that ends the counting.
pub proof fn law_counts_add_up(
    a: Seq<Result<usize, StoreFailure>>,
    b: Seq<Result<usize, StoreFailure>>,
)
    ensures
        counted(a + b) == if counted(a).1 is Some {
            counted(a)
        } else {
            (counted(a).0 + counted(b).0, counted(b).1)
        },
    decreases b.len(),
{
    if b.len() == 0 {
        assert(a + b =~= a);
    } else {
        law_counts_add_up(a, b.drop_last());
        assert((a + b).drop_last() =~= a + b.drop_last());
        assert((a + b).last() == b.last());
    }
}

/// The count of one filter is what the store says, and nothing where it says that something was not
/// found; any other failure ends the counting.
pub proof fn law_count_of_one_filter(result: Result<usize, StoreFailure>, text: Seq<char>)
    requires
        result matches Err(failure) ==> match failure {
            StoreFailure::Backend { cause, text: whole } => whole@ == text,
            StoreFailure::NotSupported { text: whole } => whole@ == text,
        },
    ensures
        result matches Ok(n) ==> counted(seq![result]) == (n as nat, None::<Seq<char>>),
        result is Err && (has_substring(text, "NotFound"@) || has_substring(text, "Not found"@))
            ==> counted(seq![result]) == (0nat, None::<Seq<char>>),
        result is Err && !has_substring(text, "NotFound"@) && !has_substring(text, "Not found"@)
            ==> counted(seq![result]) == (0nat, Some(text)),
{
    assert(seq![result].drop_last() =~= Seq::empty());
    assert(counted(Seq::empty()) == (0nat, None::<Seq<char>>));
    assert(seq![result].last() == result);
    reveal_strlit("Backend(NotFound)");
    reveal_strlit("NotFound");
    if has_substring(text, "Backend(NotFound)"@) {
        let i = choose|i: int| occurs_at(text, "Backend(NotFound)"@, i);
        assert(text.subrange(i + 8, i + 16) =~= "NotFound"@) by {
            assert(text.subrange(i, i + 17) == "Backend(NotFound)"@);
            assert forall|k: int| 0 <= k < 8 implies text[i + 8 + k] == "NotFound"@[k] by {
                assert(text.subrange(i, i + 17)[8 + k] == "Backend(NotFound)"@[8 + k]);
            }
        }
        assert(occurs_at(text, "NotFound"@, i + 8));
    }
}

/// A failed query is passed over exactly where the store says that something was not found; the
/// items for a reconciliation are those that the store found.
pub proof fn law_missing_events_are_no_failure(
    failure: StoreFailure,
    found: Result<Vec<(EventId, u64)>, StoreFailure>,
    after: Option<Error>,
    r: Result<Vec<(EventId, u64)>, Error>,
)
    requires
        call_ensures(after_failed_query, (&failure,), after),
        call_ensures(negentropy_items, (found,), r),
    ensures
        after is None <==> (failure matches StoreFailure::Backend { cause, text } && has_substring(
            cause@,
            "Not found"@,
        )),
        after matches Some(e) ==> e is Database,
        found matches Ok(items) ==> (r matches Ok(list) && list@ == items@),
        r matches Err(e) ==> found is Err && e is Database,
        r matches Ok(list) ==> found is Ok || list@.len() == 0,
{
}

} // verus!
