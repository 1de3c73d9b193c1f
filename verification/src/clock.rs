//! The time of day, and the ids and stamps made of it.
use vstd::prelude::*;

use crate::text;

verus! {

/// `std::time::SystemTime`, carried as it is.
#[verifier::external_type_specification]
#[verifier::external_body]
pub struct ExSystemTime(std::time::SystemTime);

/// `std::time::SystemTimeError`, carried as it is.
#[verifier::external_type_specification]
#[verifier::external_body]
pub struct ExSystemTimeError(std::time::SystemTimeError);

/// `SystemTime::now`: what the machine's clock shows. Nothing is claimed of it.
pub assume_specification[ std::time::SystemTime::now ]() -> std::time::SystemTime
;

/// `Duration::as_nanos`: a length of time in nanoseconds. Nothing is claimed of it.
pub assume_specification[ std::time::Duration::as_nanos ](d: &std::time::Duration) -> u128
;

/// `Duration::as_millis`: a length of time in milliseconds. Nothing is claimed of it.
pub assume_specification[ std::time::Duration::as_millis ](d: &std::time::Duration) -> u128
;

/// `SystemTime::duration_since`, counted from the Unix epoch. Nothing is
/// claimed of it: it is an error on a clock set before the epoch.
#[verifier::external_body]
fn since_epoch(time: &std::time::SystemTime) -> (r: Result<
    std::time::Duration,
    std::time::SystemTimeError,
>) {
    time.duration_since(std::time::UNIX_EPOCH)
}

/// The id made of a time in nanoseconds and a counter.
pub open spec fn id_text(nanos: nat, counter: nat) -> Seq<char> {
    text::decimal(nanos) + "-"@ + text::decimal(counter)
}

/// The stamp of a time in milliseconds; empty for a clock that shows none.
pub open spec fn stamp_text(millis: Option<u128>) -> Seq<char> {
    match millis {
        Some(millis) => text::decimal(millis as nat),
        None => Seq::empty(),
    }
}

/// The id made of a time in nanoseconds and a counter.
pub fn id_of(nanos: u128, counter: u64) -> (r: String)
    ensures
        r@ == id_text(nanos as nat, counter as nat),
{
    let mut s = text::decimal_of(nanos);
    s.append("-");
    text::append_decimal(&mut s, counter as u128);
    s
}

/// How many values a counter has.
pub open spec fn counter_limit() -> nat {
    0x1_0000_0000_0000_0000
}

/// What a process makes ids from: a counter that goes up by one with each id,
/// and starts over only when it has run through all its values.
pub struct IdSource {
    counter: u64,
}

impl View for IdSource {
    type V = nat;

    closed spec fn view(&self) -> nat {
        self.counter as nat
    }
}

impl IdSource {
    pub fn new() -> (r: IdSource)
        ensures
            r@ == 0,
    {
        IdSource { counter: 0 }
    }
}

/// Whether `id` was made of `counter` and some time.
pub open spec fn made_of(id: Seq<char>, counter: nat) -> bool {
    exists|nanos: u128| id == #[trigger] id_text(nanos as nat, counter)
}

/// A fresh id: the time in nanoseconds, zero on a clock before the epoch, and
/// the counter of `ids`. The counter keeps apart the ids of two cards made on
/// the same tick of the clock. Which time it is, is left unsaid.
pub fn new_id(ids: &mut IdSource) -> (r: String)
    ensures
        made_of(r@, old(ids)@),
        final(ids)@ == (old(ids)@ + 1) % counter_limit(),
{
    let counter = ids.counter;
    ids.counter = counter.wrapping_add(1);
    let nanos: u128 = match since_epoch(&std::time::SystemTime::now()) {
        Ok(d) => d.as_nanos(),
        Err(_) => 0,
    };
    id_of(nanos, counter)
}

/// The stamp of a time in milliseconds.
pub fn stamp_of(millis: Option<u128>) -> (r: String)
    ensures
        r@ == stamp_text(millis),
{
    match millis {
        Some(millis) => text::decimal_of(millis),
        None => String::new(),
    }
}

/// The present time in milliseconds since the Unix epoch; empty on a clock
/// before the epoch.
pub fn unix_now_ms_string() -> (r: String)
    ensures
        exists|millis: Option<u128>| r@ == #[trigger] stamp_text(millis),
{
    let millis: Option<u128> = match since_epoch(&std::time::SystemTime::now()) {
        Ok(d) => Some(d.as_millis()),
        Err(_) => None,
    };
    stamp_of(millis)
}

/// Two ids are the same only if both the time and the counter are: ids made
/// with different counters differ, even on the same tick of the clock.
pub proof fn law_ids_never_collide(nanos1: nat, counter1: nat, nanos2: nat, counter2: nat)
    ensures
        id_text(nanos1, counter1) == id_text(nanos2, counter2) <==> nanos1 == nanos2 && counter1
            == counter2,
{
    reveal_strlit("-");
    let a1 = text::decimal(nanos1);
    let b1 = text::decimal(counter1);
    let a2 = text::decimal(nanos2);
    let b2 = text::decimal(counter2);
    let id1 = id_text(nanos1, counter1);
    let id2 = id_text(nanos2, counter2);
    text::lemma_decimal_digits(nanos1);
    text::lemma_decimal_digits(nanos2);
    if id1 == id2 {
        assert(id1[a1.len() as int] == '-');
        assert(id2[a2.len() as int] == '-');
        if a1.len() < a2.len() {
            assert(id2[a1.len() as int] == a2[a1.len() as int]);
        }
        if a2.len() < a1.len() {
            assert(id1[a2.len() as int] == a1[a2.len() as int]);
        }
        assert(a1 =~= id1.take(a1.len() as int));
        assert(a2 =~= id2.take(a1.len() as int));
        assert(b1 =~= id1.skip(a1.len() as int + 1));
        assert(b2 =~= id2.skip(a1.len() as int + 1));
        text::lemma_decimal_injective(nanos1, nanos2);
        text::lemma_decimal_injective(counter1, counter2);
    }
}

/// The counter of a source that stood at `first`, after `n` ids.
pub open spec fn counter_after(first: nat, n: nat) -> nat
    decreases n,
{
    if n == 0 {
        first
    } else {
        (counter_after(first, (n - 1) as nat) + 1) % counter_limit()
    }
}

/// Whether `ids` came one after the other from a source that stood at `first`,
/// whatever the clock showed each time.
pub open spec fn issued(ids: Seq<Seq<char>>, first: nat) -> bool {
    forall|i: int|
        0 <= i < ids.len() ==> made_of(#[trigger] ids[i], counter_after(first, i as nat))
}

/// Digits, a dash, and digits.
pub open spec fn id_shaped(id: Seq<char>) -> bool {
    exists|at: int|
        0 < at < id.len() - 1 && #[trigger] id[at] == '-' && forall|i: int|
            0 <= i < id.len() && i != at ==> '0' <= #[trigger] id[i] <= '9'
}

proof fn lemma_counter_after(first: nat, n: nat)
    requires
        first < counter_limit(),
    ensures
        counter_after(first, n) == (first + n) % counter_limit(),
    decreases n,
{
    if n > 0 {
        lemma_counter_after(first, (n - 1) as nat);
    }
}

proof fn lemma_id_shape(nanos: nat, counter: nat)
    ensures
        id_shaped(id_text(nanos, counter)),
{
    reveal_strlit("-");
    text::lemma_decimal_digits(nanos);
    text::lemma_decimal_digits(counter);
    let a = text::decimal(nanos);
    let b = text::decimal(counter);
    let id = id_text(nanos, counter);
    let at = a.len() as int;
    assert(id[at] == '-');
    assert forall|i: int| 0 <= i < id.len() && i != at implies '0' <= #[trigger] id[i] <= '9' by {
        if i < at {
            assert(id[i] == a[i]);
        } else {
            assert(id[i] == b[i - at - 1]);
        }
    }
}

/// The ids that one source gives are all different, even on a clock that
/// stands still or goes back, until the counter has run through all its
/// values. Each is made of digits, a dash, and digits.
pub proof fn law_ids_of_one_source_differ(ids: Seq<Seq<char>>, first: nat)
    requires
        issued(ids, first),
        first < counter_limit(),
        ids.len() <= counter_limit(),
    ensures
        forall|i: int, j: int| 0 <= i < j < ids.len() ==> #[trigger] ids[i] != #[trigger] ids[j],
        forall|i: int| 0 <= i < ids.len() ==> id_shaped(#[trigger] ids[i]),
{
    assert forall|i: int, j: int| 0 <= i < j < ids.len() implies #[trigger] ids[i]
        != #[trigger] ids[j] by {
        let c = counter_after(first, i as nat);
        let d = counter_after(first, j as nat);
        lemma_counter_after(first, i as nat);
        lemma_counter_after(first, j as nat);
        assert(c != d);
        let m = choose|nanos: u128| ids[i] == #[trigger] id_text(nanos as nat, c);
        let n = choose|nanos: u128| ids[j] == #[trigger] id_text(nanos as nat, d);
        law_ids_never_collide(m as nat, c, n as nat, d);
    }
    assert forall|i: int| 0 <= i < ids.len() implies id_shaped(#[trigger] ids[i]) by {
        let c = counter_after(first, i as nat);
        let m = choose|nanos: u128| ids[i] == #[trigger] id_text(nanos as nat, c);
        lemma_id_shape(m as nat, c);
    }
}

/// An id is the time, a dash and the counter, both in decimal; a stamp is the
/// time in decimal, and empty without one.
pub proof fn law_ids_and_stamps_are_decimal(nanos: nat, counter: nat, millis: u128)
    ensures
        id_text(nanos, counter).len() == text::decimal(nanos).len() + 1 + text::decimal(counter).len(),
        id_text(nanos, counter).take(text::decimal(nanos).len() as int) == text::decimal(nanos),
        id_text(nanos, counter)[text::decimal(nanos).len() as int] == '-',
        id_text(nanos, counter).skip(text::decimal(nanos).len() as int + 1) == text::decimal(counter),
        text::numeral_value(stamp_text(Some(millis))) == millis,
        stamp_text(None).len() == 0,
{
    reveal_strlit("-");
    text::law_decimal_reads_back(millis as nat);
    let a = text::decimal(nanos);
    let b = text::decimal(counter);
    let id = id_text(nanos, counter);
    assert(id.take(a.len() as int) =~= a);
    assert(id.skip(a.len() as int + 1) =~= b);
}

} // verus!
