//! Decisions of the pages: route parameters, labels and form checks.

use vstd::prelude::*;
use vstd::utf8::encode_utf8;
use crate::model::ItemListSummary;
use crate::tables::{filter_seq, lemma_filter_seq_contains};
use crate::text::{is_blank, trim_spec};

verus! {

/// An ASCII decimal digit.
pub open spec fn is_digit(b: u8) -> bool {
    48 <= b <= 57
}

pub open spec fn all_digits(ds: Seq<u8>) -> bool {
    forall|i: int| 0 <= i < ds.len() ==> is_digit(#[trigger] ds[i])
}

/// The number that a string of decimal digits writes.
pub open spec fn digits_value(ds: Seq<u8>) -> int
    decreases ds.len(),
{
    if ds.len() == 0 {
        0
    } else {
        digits_value(ds.drop_last()) * 10 + (ds.last() - 48)
    }
}

/// The integer that `i64::from_str` reads: an optional `+` or `-`, then one
/// or more ASCII digits, nothing else, and a value that fits in an `i64`.
pub open spec fn parse_i64_spec(b: Seq<u8>) -> Option<i64> {
    if b.len() == 0 {
        None
    } else {
        let negative = b[0] == 45;
        let ds = if b[0] == 45 || b[0] == 43 {
            b.drop_first()
        } else {
            b
        };
        let v = if negative {
            -digits_value(ds)
        } else {
            digits_value(ds)
        };
        if ds.len() == 0 || !all_digits(ds) || v < i64::MIN || v > i64::MAX {
            None
        } else {
            Some(v as i64)
        }
    }
}

/// A longer string of digits writes at least the number of its prefix.
proof fn lemma_digits_value_grows(ds: Seq<u8>, k: int)
    requires
        all_digits(ds),
        0 <= k <= ds.len(),
    ensures
        0 <= digits_value(ds.take(k)) <= digits_value(ds),
    decreases ds.len(),
{
    if k < ds.len() {
        let t = ds.drop_last();
        assert(all_digits(t)) by {
            assert forall|i: int| 0 <= i < t.len() implies is_digit(#[trigger] t[i]) by {
                assert(t[i] == ds[i]);
            }
        }
        lemma_digits_value_grows(t, k);
        assert(t.take(k) =~= ds.take(k));
        assert(is_digit(ds[ds.len() - 1]));
    } else {
        assert(ds.take(k) =~= ds);
        lemma_digits_value_nonneg(ds);
    }
}

proof fn lemma_digits_value_nonneg(ds: Seq<u8>)
    requires
        all_digits(ds),
    ensures
        digits_value(ds) >= 0,
    decreases ds.len(),
{
    if ds.len() > 0 {
        let t = ds.drop_last();
        assert(all_digits(t)) by {
            assert forall|i: int| 0 <= i < t.len() implies is_digit(#[trigger] t[i]) by {
                assert(t[i] == ds[i]);
            }
        }
        lemma_digits_value_nonneg(t);
        assert(is_digit(ds[ds.len() - 1]));
    }
}

/// Reads a decimal `i64` exactly as `str::parse::<i64>` does.
pub fn parse_i64(s: &str) -> (r: Option<i64>)
    ensures
        r == parse_i64_spec(encode_utf8(s@)),
{
    let b = s.as_bytes();
    let ghost bs = b@;
    assert(bs == encode_utf8(s@));
    let n = b.len();
    if n == 0 {
        return None;
    }
    let negative = b[0] == 45;
    let start: usize = if b[0] == 45 || b[0] == 43 {
        1
    } else {
        0
    };
    let ghost ds = if b[0] == 45 || b[0] == 43 {
        bs.drop_first()
    } else {
        bs
    };
    assert(ds =~= bs.skip(start as int));
    if start == n {
        return None;
    }
    let mut v: i64 = 0;
    let mut i: usize = start;
    while i < n
        invariant
            n == bs.len(),
            bs == b@,
            bs == encode_utf8(s@),
            start == (if bs[0] == 45 || bs[0] == 43 {
                1int
            } else {
                0int
            }),
            start <= i <= n,
            ds == bs.skip(start as int),
            ds.len() > 0,
            all_digits(ds.take(i - start)),
            negative ==> v == -digits_value(ds.take(i - start)),
            !negative ==> v == digits_value(ds.take(i - start)),
            negative == (bs[0] == 45),
        decreases n - i,
    {
        let c = b[i];
        let ghost k = i - start;
        proof {
            assert(ds[k] == bs[i as int]);
            assert(ds.take(k + 1).drop_last() =~= ds.take(k));
            assert(ds.take(k + 1).last() == c);
        }
        if c < 48 || c > 57 {
            proof {
                assert(!is_digit(ds[k]));
                assert(!all_digits(ds));
            }
            return None;
        }
        let d = (c - 48) as i64;
        let next = if negative {
            match v.checked_mul(10) {
                Some(m) => m.checked_sub(d),
                None => None,
            }
        } else {
            match v.checked_mul(10) {
                Some(m) => m.checked_add(d),
                None => None,
            }
        };
        proof {
            assert(all_digits(ds.take(k + 1))) by {
                assert forall|j: int| 0 <= j < k + 1 implies is_digit(#[trigger] ds.take(k + 1)[j]) by {
                    if j < k {
                        assert(ds.take(k + 1)[j] == ds.take(k)[j]);
                    }
                }
            }
        }
        match next {
            Some(x) => {
                v = x;
            },
            None => {
                proof {
                    lemma_digits_value_nonneg(ds.take(k));
                    let before = digits_value(ds.take(k));
                    assert(digits_value(ds.take(k + 1)) == before * 10 + (c - 48));
                    if negative {
                        assert(-digits_value(ds.take(k + 1)) < i64::MIN);
                    } else {
                        assert(digits_value(ds.take(k + 1)) > i64::MAX);
                    }
                    if all_digits(ds) {
                        lemma_digits_value_grows(ds, k + 1);
                        assert(digits_value(ds) >= digits_value(ds.take(k + 1)));
                    }
                    let sds = if bs[0] == 45 || bs[0] == 43 {
                        bs.drop_first()
                    } else {
                        bs
                    };
                    assert(sds == ds);
                    if all_digits(ds) {
                        if negative {
                            assert(-digits_value(sds) < i64::MIN);
                        } else {
                            assert(digits_value(sds) > i64::MAX);
                        }
                    }
                    assert(parse_i64_spec(bs) is None);
                }
                return None;
            },
        }
        i = i + 1;
    }
    proof {
        assert(ds.take(i - start) =~= ds);
    }
    Some(v)
}

/// Decimal digits are read most significant first: the leading digit counts
/// ten to the power of the number of digits after it.
pub proof fn law_digits_leading_digit(d: u8, ds: Seq<u8>)
    ensures
        digits_value(seq![d] + ds) == (d - 48) * vstd::arithmetic::power::pow(10, ds.len())
            + digits_value(ds),
    decreases ds.len(),
{
    reveal(vstd::arithmetic::power::pow);
    let whole = seq![d] + ds;
    if ds.len() == 0 {
        assert(whole.drop_last() =~= Seq::<u8>::empty());
        assert(whole.last() == d);
        assert(digits_value(whole.drop_last()) == 0);
        assert(vstd::arithmetic::power::pow(10, 0) == 1);
        assert(digits_value(whole) == d - 48);
        assert((d - 48) * vstd::arithmetic::power::pow(10, ds.len()) == d - 48);
    } else {
        let t = ds.drop_last();
        law_digits_leading_digit(d, t);
        assert(whole.drop_last() =~= seq![d] + t);
        assert(whole.last() == ds.last());
        let p = vstd::arithmetic::power::pow(10, t.len());
        assert(vstd::arithmetic::power::pow(10, ds.len()) == 10 * p);
        let a = d - 48;
        let b = digits_value(t);
        assert((a * p + b) * 10 == a * (10 * p) + b * 10) by (nonlinear_arith);
        assert(digits_value(whole) == digits_value(seq![d] + t) * 10 + (ds.last() - 48));
        assert(digits_value(ds) == b * 10 + (ds.last() - 48));
        assert(a * vstd::arithmetic::power::pow(10, ds.len()) == a * (10 * p));
    }
}

/// A route id is read as `i64::from_str` reads it: digits alone give their
/// value, a leading `-` negates it, a leading `+` changes nothing, and the
/// value must fit in an `i64`.
pub proof fn law_parse_sign_and_digits(ds: Seq<u8>)
    requires
        ds.len() > 0,
        all_digits(ds),
    ensures
        parse_i64_spec(ds) == if digits_value(ds) <= i64::MAX {
            Some(digits_value(ds) as i64)
        } else {
            None::<i64>
        },
        parse_i64_spec(seq![43u8] + ds) == parse_i64_spec(ds),
        parse_i64_spec(seq![45u8] + ds) == if -digits_value(ds) >= i64::MIN {
            Some((-digits_value(ds)) as i64)
        } else {
            None::<i64>
        },
{
    lemma_digits_value_nonneg(ds);
    assert(ds[0] != 45 && ds[0] != 43) by {
        assert(is_digit(ds[0]));
    }
    assert((seq![43u8] + ds).drop_first() =~= ds);
    assert((seq![45u8] + ds).drop_first() =~= ds);
}

/// The id that a route parameter names, or the fallback when the parameter
/// is missing or is not a decimal `i64`.
pub fn id_param_or(param: Option<&str>, fallback: i64) -> (r: i64)
    ensures
        r == match param {
            Some(p) => match parse_i64_spec(encode_utf8(p@)) {
                Some(v) => v,
                None => fallback,
            },
            None => fallback,
        },
{
    match param {
        Some(p) => match parse_i64(p) {
            Some(v) => v,
            None => fallback,
        },
        None => fallback,
    }
}

/// The word after a list's item count: singular for exactly one item.
pub fn count_suffix(count: u64) -> (r: &'static str)
    ensures
        r@ == if count == 1 {
            " item"@
        } else {
            " items"@
        },
{
    if count == 1 {
        " item"
    } else {
        " items"
    }
}

/// `str::starts_with`: whether `prefix` opens `s`.
#[verifier::external_body]
fn str_starts_with(s: &str, prefix: &str) -> (r: bool)
    ensures
        r == (prefix@.len() <= s@.len() && s@.take(prefix@.len() as int) == prefix@),
{
    s.starts_with(prefix)
}

/// Whether a place to buy is shown as a link: it starts with `http`.
pub fn is_web_link(where_to_buy: &str) -> (r: bool)
    ensures
        r == ("http"@.len() <= where_to_buy@.len() && where_to_buy@.take("http"@.len() as int)
            == "http"@),
{
    str_starts_with(where_to_buy, "http")
}

/// The text before the first occurrence of `sep`, or all of it.
pub open spec fn before_char(s: Seq<char>, sep: char) -> Seq<char>
    decreases s.len(),
{
    if s.len() == 0 || s[0] == sep {
        Seq::empty()
    } else {
        seq![s[0]] + before_char(s.drop_first(), sep)
    }
}

proof fn lemma_before_char(a: Seq<char>, b: Seq<char>, sep: char)
    requires
        !a.contains(sep),
    ensures
        before_char(a + seq![sep] + b, sep) == a,
        before_char(a, sep) == a,
    decreases a.len(),
{
    if a.len() > 0 {
        let t = a.drop_first();
        assert(!t.contains(sep)) by {
            if t.contains(sep) {
                let k = choose|k: int| 0 <= k < t.len() && t[k] == sep;
                assert(a[k + 1] == sep);
            }
        }
        lemma_before_char(t, b, sep);
        assert((a + seq![sep] + b).drop_first() =~= t + seq![sep] + b);
        assert(a[0] != sep);
        assert(a =~= seq![a[0]] + t);
    } else {
        assert(a + seq![sep] + b =~= seq![sep] + b);
    }
}

/// The date shown for a purchase is its time stamp up to the first `T`, or
/// the whole stamp when it holds none.
pub proof fn law_purchase_date_cuts_at_first_t(date: Seq<char>, rest: Seq<char>)
    requires
        !date.contains('T'),
    ensures
        before_char(date + seq!['T'] + rest, 'T') == date,
        before_char(date, 'T') == date,
{
    lemma_before_char(date, rest, 'T');
}

/// `str::split_once`: the parts before and after the first `sep`.
#[verifier::external_body]
fn str_split_once(s: &str, sep: char) -> (r: Option<(&str, &str)>)
    ensures
        match r {
            Some((a, b)) => s@ == a@ + seq![sep] + b@ && !a@.contains(sep),
            None => !s@.contains(sep),
        },
{
    s.split_once(sep)
}

/// The date of a purchase: its time stamp up to the `T` that starts the time.
pub fn purchase_date(purchased_at: &str) -> (r: String)
    ensures
        r@ == before_char(purchased_at@, 'T'),
{
    match str_split_once(purchased_at, 'T') {
        Some((date, time)) => {
            proof {
                lemma_before_char(date@, time@, 'T');
            }
            date.to_owned()
        },
        None => {
            proof {
                lemma_before_char(purchased_at@, Seq::empty(), 'T');
            }
            purchased_at.to_owned()
        },
    }
}

/// Why an item form is refused.
#[derive(Clone, Copy, Debug, PartialEq, Eq, Structural)]
pub enum FormError {
    /// The name holds nothing but white space.
    NameRequired,
}

impl FormError {
    /// The message shown under the form.
    pub fn message(&self) -> (r: &'static str)
        ensures
            r@ == "Name is required."@,
    {
        match self {
            FormError::NameRequired => "Name is required.",
        }
    }
}

/// An item form is accepted when its name is not blank.
pub fn validate_item_name(name: &str) -> (r: Result<(), FormError>)
    ensures
        r is Ok <==> trim_spec(name@).len() > 0,
        r matches Err(e) ==> e == FormError::NameRequired,
{
    if is_blank(name) {
        Err(FormError::NameRequired)
    } else {
        Ok(())
    }
}

/// A list other than the one with the given id.
pub open spec fn other_than_list(current: i64) -> spec_fn(ItemListSummary) -> bool {
    |l: ItemListSummary| l.id != current
}

/// The move targets are exactly the given lists whose id is not the current
/// list's.
pub proof fn law_move_targets(lists: Seq<ItemListSummary>, current: i64)
    ensures
        forall|l: ItemListSummary|
            #[trigger] filter_seq(lists, other_than_list(current)).contains(l) <==> lists.contains(l)
                && l.id != current,
{
    assert forall|l: ItemListSummary|
        #[trigger] filter_seq(lists, other_than_list(current)).contains(l) <==> lists.contains(l)
            && l.id != current by {
        lemma_filter_seq_contains(lists, other_than_list(current), l);
    }
}

/// The lists an item can be moved to: all but its own, in the given order.
pub fn other_lists(lists: &Vec<ItemListSummary>, current: i64) -> (r: Vec<ItemListSummary>)
    ensures
        r@ == filter_seq(lists@, other_than_list(current)),
{
    let mut out: Vec<ItemListSummary> = Vec::new();
    let mut i: usize = 0;
    while i < lists.len()
        invariant
            i <= lists@.len(),
            out@ == filter_seq(lists@.take(i as int), other_than_list(current)),
        decreases lists@.len() - i,
    {
        proof {
            assert(lists@.take(i + 1).drop_last() =~= lists@.take(i as int));
            assert(lists@.take(i + 1).last() == lists@[i as int]);
        }
        if lists[i].id != current {
            out.push(lists[i].clone());
        }
        i = i + 1;
    }
    proof {
        assert(lists@.take(i as int) =~= lists@);
    }
    out
}

/// The list preselected as a move target: the first other list, or 0 when
/// there is none (0 names no list, so no move is made).
pub fn default_move_target(others: &Vec<ItemListSummary>) -> (r: i64)
    ensures
        r == if others@.len() > 0 {
            others@[0].id
        } else {
            0
        },
{
    if others.len() > 0 {
        others[0].id
    } else {
        0
    }
}

/// Where the item form stands between two events: whether a save is under
/// way, and the error shown under the form.
#[derive(Clone, Debug)]
pub struct FormState {
    pub submitting: bool,
    pub error: Option<String>,
}

/// What happens to the item form.
#[derive(Clone, Debug)]
pub enum FormEvent {
    /// The form is submitted with this name.
    Submitted { name: String },
    /// The item was saved.
    Saved,
    /// Saving failed with this message.
    SaveFailed { message: String },
}

/// What the page does next.
#[derive(Clone, Copy, Debug, PartialEq, Eq, Structural)]
pub enum FormAction {
    /// Nothing more: the form stays as it is shown.
    Stay,
    /// Save the item (create it, or update the one being edited).
    Save,
    /// Leave the form for the page of the list.
    ShowList { list_id: i64 },
}

/// One step of the item form. A blank name is refused with its message and
/// nothing is saved; any other name starts the save. A save that succeeds
/// leads to the page of the list; one that fails shows its message and lets
/// the form be submitted again.
pub fn form_step(state: FormState, event: FormEvent, list_id: i64) -> (r: (FormState, FormAction))
    ensures
        match event {
            FormEvent::Submitted { name } => if trim_spec(name@).len() == 0 {
                &&& r.0.submitting == state.submitting
                &&& r.0.error matches Some(m) && m@ == "Name is required."@
                &&& r.1 == FormAction::Stay
            } else {
                &&& r.0.submitting
                &&& r.0.error == state.error
                &&& r.1 == FormAction::Save
            },
            FormEvent::Saved => r.0 == state && r.1 == (FormAction::ShowList { list_id }),
            FormEvent::SaveFailed { message } => {
                &&& !r.0.submitting
                &&& r.0.error == Some(message)
                &&& r.1 == FormAction::Stay
            },
        },
{
    match event {
        FormEvent::Submitted { name } => match validate_item_name(name.as_str()) {
            Err(e) => {
                let message = e.message().to_owned();
                (FormState { submitting: state.submitting, error: Some(message) }, FormAction::Stay)
            },
            Ok(()) => (FormState { submitting: true, error: state.error }, FormAction::Save),
        },
        FormEvent::Saved => (state, FormAction::ShowList { list_id }),
        FormEvent::SaveFailed { message } => (
            FormState { submitting: false, error: Some(message) },
            FormAction::Stay,
        ),
    }
}

/// Where the new-list form stands: the name being typed, whether a creation
/// is under way, and the error shown.
#[derive(Clone, Debug)]
pub struct NewListState {
    pub name: String,
    pub creating: bool,
    pub error: Option<String>,
}

/// What happens to the new-list form.
#[derive(Clone, Debug)]
pub enum NewListEvent {
    /// The form is submitted with the name it holds.
    Submitted,
    /// The list was created.
    Created,
    /// Creating failed with this message.
    CreateFailed { message: String },
}

/// What the page does next.
#[derive(Clone, Copy, Debug, PartialEq, Eq, Structural)]
pub enum NewListAction {
    /// Nothing more.
    Stay,
    /// Create a list with the name the form held when it was submitted.
    Create,
    /// Read the lists again, to show the new one.
    Reload,
}

/// One step of the new-list form. A blank name does nothing; any other
/// starts the creation and clears the error. A creation that succeeds
/// empties the field and reloads the lists; one that fails shows its
/// message. Either way the form can be used again.
pub fn new_list_step(state: NewListState, event: NewListEvent) -> (r: (NewListState, NewListAction))
    ensures
        match event {
            NewListEvent::Submitted => if trim_spec(state.name@).len() == 0 {
                r.0 == state && r.1 == NewListAction::Stay
            } else {
                &&& r.0.name == state.name
                &&& r.0.creating
                &&& r.0.error is None
                &&& r.1 == NewListAction::Create
            },
            NewListEvent::Created => {
                &&& r.0.name@ == Seq::<char>::empty()
                &&& !r.0.creating
                &&& r.0.error == state.error
                &&& r.1 == NewListAction::Reload
            },
            NewListEvent::CreateFailed { message } => {
                &&& r.0.name == state.name
                &&& !r.0.creating
                &&& r.0.error == Some(message)
                &&& r.1 == NewListAction::Stay
            },
        },
{
    match event {
        NewListEvent::Submitted => {
            if is_blank(state.name.as_str()) {
                (state, NewListAction::Stay)
            } else {
                (NewListState { name: state.name, creating: true, error: None }, NewListAction::Create)
            }
        },
        NewListEvent::Created => (
            NewListState { name: String::new(), creating: false, error: state.error },
            NewListAction::Reload,
        ),
        NewListEvent::CreateFailed { message } => (
            NewListState { name: state.name, creating: false, error: Some(message) },
            NewListAction::Stay,
        ),
    }
}

} // verus!
