//! The composite derivation contract: how structs and enums build their
//! codec out of their fields' codecs.
//!
//! A struct pushes and pulls each field in declaration order, with no prefix.
//! An enum writes a signed 8-byte discriminant first, then the active
//! variant's fields in order; every variant gets a distinct discriminant — an
//! annotated variant keeps its stated value, and each remaining variant
//! takes, in declaration order, the lowest non-negative integer not already
//! taken by an annotated one ([`assign_discriminants`]). A discriminant read
//! from the wire that matches no variant is a decode failure.
//!
//! [`Record`] and [`Message`] are the worked examples of the contract, with
//! the all-implicit discriminant assignment 0, 1, 2 for [`Message`].

use vstd::bytes::spec_u64_to_le_bytes;
use vstd::prelude::*;

use crate::channel::Channel;
use crate::codec::RemoteObject;
use crate::errors::SyncError;
use crate::errors::SyncResult;

verus! {

/// True when some variant is annotated with the explicit discriminant `c`.
pub open spec fn is_explicit_discr(explicit: Seq<Option<i64>>, c: i64) -> bool {
    exists|i: int| 0 <= i < explicit.len() && explicit[i] == Some(c)
}

/// How many annotated variants carry a discriminant in `[0, c)`.
pub open spec fn count_below(explicit: Seq<Option<i64>>, c: int) -> nat
    decreases explicit.len(),
{
    if explicit.len() == 0 {
        0nat
    } else {
        (match explicit[0] {
            Some(d) => if 0 <= d < c {
                1nat
            } else {
                0nat
            },
            None => 0nat,
        }) + count_below(explicit.drop_first(), c)
    }
}

proof fn lemma_count_below_len(explicit: Seq<Option<i64>>, c: int)
    ensures
        count_below(explicit, c) <= explicit.len(),
    decreases explicit.len(),
{
    if explicit.len() != 0 {
        lemma_count_below_len(explicit.drop_first(), c);
    }
}

proof fn lemma_count_below_mono(explicit: Seq<Option<i64>>, c1: int, c2: int)
    requires
        c1 <= c2,
    ensures
        count_below(explicit, c1) <= count_below(explicit, c2),
    decreases explicit.len(),
{
    if explicit.len() != 0 {
        lemma_count_below_mono(explicit.drop_first(), c1, c2);
    }
}

/// Passing an annotated value bumps the count.
proof fn lemma_count_below_bump(explicit: Seq<Option<i64>>, c: i64)
    requires
        0 <= c,
        is_explicit_discr(explicit, c),
    ensures
        count_below(explicit, c + 1) >= count_below(explicit, c as int) + 1,
    decreases explicit.len(),
{
    let i = choose|i: int| 0 <= i < explicit.len() && explicit[i] == Some(c);
    if i == 0 {
        lemma_count_below_mono(explicit.drop_first(), c as int, c + 1);
    } else {
        assert(explicit.drop_first()[i - 1] == Some(c));
        lemma_count_below_bump(explicit.drop_first(), c);
    }
}

/// Decide whether `c` is taken by an annotated variant.
fn contains_explicit(explicit: &Vec<Option<i64>>, c: i64) -> (b: bool)
    ensures
        b == is_explicit_discr(explicit@, c),
{
    let mut i: usize = 0;
    while i < explicit.len()
        invariant
            i <= explicit@.len(),
            forall|k: int| 0 <= k < i ==> explicit@[k] != Some(c),
        decreases explicit@.len() - i,
    {
        if let Some(d) = explicit[i] {
            if d == c {
                return true;
            }
        }
        i = i + 1;
    }
    false
}

/// Assign every variant its wire discriminant, once, at type-definition
/// time: one entry per variant in declaration order, `Some` for an annotated
/// variant (which keeps its stated value), `None` for the rest.
///
/// Each unannotated variant receives, in declaration order, the lowest
/// non-negative integer not taken by an annotated variant and not already
/// given to an earlier unannotated one — the first-empty-slot rule. The
/// contract pins that down: an unannotated variant's discriminant is
/// non-negative, not annotated anywhere, larger than every earlier
/// unannotated one, and every smaller free value is already used by an
/// earlier unannotated variant.
#[verifier::loop_isolation(false)]
pub fn assign_discriminants(explicit: &Vec<Option<i64>>) -> (r: Vec<i64>)
    requires
        2 * explicit@.len() < i64::MAX,
    ensures
        r@.len() == explicit@.len(),
        forall|i: int|
            0 <= i < explicit@.len() && explicit@[i] is Some ==> r@[i] == explicit@[i]->0,
        forall|i: int|
            0 <= i < explicit@.len() && explicit@[i] is None ==> (0 <= r@[i]
                && !is_explicit_discr(explicit@, r@[i])),
        forall|i: int, j: int|
            0 <= j < i < explicit@.len() && explicit@[i] is None && explicit@[j] is None ==> r@[j]
                < r@[i],
        forall|i: int, c: i64|
            (0 <= i < explicit@.len() && explicit@[i] is None && 0 <= c < r@[i]
                && !is_explicit_discr(explicit@, c)) ==> (exists|j: int|
                0 <= j < i && explicit@[j] is None && r@[j] == c),
{
    let n = explicit.len();
    let mut r: Vec<i64> = Vec::new();
    let mut cursor: i64 = 0;
    let mut idx: usize = 0;
    while idx < n
        invariant
            idx <= n,
            r@.len() == idx,
            0 <= cursor,
            cursor <= idx + count_below(explicit@, cursor as int),
            forall|i: int| 0 <= i < idx && explicit@[i] is Some ==> r@[i] == explicit@[i]->0,
            forall|i: int|
                0 <= i < idx && explicit@[i] is None ==> (0 <= r@[i] && r@[i] < cursor
                    && !is_explicit_discr(explicit@, r@[i])),
            forall|i: int, j: int|
                0 <= j < i < idx && explicit@[i] is None && explicit@[j] is None ==> r@[j] < r@[i],
            forall|c: i64|
                (0 <= c < cursor && !is_explicit_discr(explicit@, c)) ==> (exists|j: int|
                    0 <= j < idx && explicit@[j] is None && r@[j] == c),
        decreases n - idx,
    {
        let entry = explicit[idx];
        let ghost r0 = r@;
        match entry {
            Some(d) => {
                Vec::push(&mut r, d);
                proof {
                    assert forall|c: i64| (0 <= c < cursor && !is_explicit_discr(explicit@, c))
                        implies (exists|j: int|
                        0 <= j < idx + 1 && explicit@[j] is None && r@[j] == c) by {
                        let j = choose|j: int| 0 <= j < idx && explicit@[j] is None && r0[j] == c;
                        assert(r@[j] == c);
                    }
                }
            },
            None => {
                while contains_explicit(explicit, cursor)
                    invariant
                        0 <= cursor,
                        cursor <= idx + count_below(explicit@, cursor as int),
                        forall|c: i64|
                            (0 <= c < cursor && !is_explicit_discr(explicit@, c)) ==> (exists|
                                j: int,
                            |
                                0 <= j < idx && explicit@[j] is None && r@[j] == c),
                        forall|i: int|
                            0 <= i < idx && explicit@[i] is None ==> (0 <= r@[i] && r@[i] < cursor),
                    decreases explicit@.len() - count_below(explicit@, cursor as int),
                {
                    proof {
                        lemma_count_below_bump(explicit@, cursor);
                        lemma_count_below_len(explicit@, cursor + 1);
                    }
                    cursor = cursor + 1;
                }
                let ghost r1 = r@;
                Vec::push(&mut r, cursor);
                proof {
                    lemma_count_below_mono(explicit@, cursor as int, cursor + 1);
                    lemma_count_below_len(explicit@, cursor + 1);
                    assert(r@[idx as int] == cursor);
                    assert forall|c: i64| (0 <= c < cursor + 1 && !is_explicit_discr(explicit@, c))
                        implies (exists|j: int|
                        0 <= j < idx + 1 && explicit@[j] is None && r@[j] == c) by {
                        if c < cursor {
                            let j = choose|j: int|
                                0 <= j < idx && explicit@[j] is None && r1[j] == c;
                            assert(r@[j] == c);
                        } else {
                            assert(explicit@[idx as int] is None);
                        }
                    }
                }
                cursor = cursor + 1;
            },
        }
        idx = idx + 1;
    }
    r
}

/// A one-field struct following the derivation contract: the encoding is the
/// concatenation of the fields' encodings in declaration order, no prefix.
#[derive(Debug, Clone, Copy, PartialEq, Eq, Structural)]
pub struct Record(pub u64);

impl DeepView for Record {
    type V = u64;

    open spec fn deep_view(&self) -> u64 {
        self.0
    }
}

impl RemoteObject for Record {
    open spec fn wire(&self) -> Seq<u8> {
        self.0.wire()
    }

    open spec fn wire_fits(&self) -> bool {
        true
    }

    open spec fn decoded(bytes: Seq<u8>) -> Result<(u64, Seq<u8>), SyncError> {
        <u64 as RemoteObject>::decoded(bytes)
    }

    proof fn lemma_round_trip(&self, rest: Seq<u8>) {
        self.0.lemma_round_trip(rest);
    }

    proof fn lemma_decoded_no_growth(bytes: Seq<u8>) {
        <u64 as RemoteObject>::lemma_decoded_no_growth(bytes);
    }

    fn push(&self, channel: &mut Channel) -> (r: SyncResult<()>) {
        self.0.push(channel)
    }

    fn pull(&mut self, channel: &mut Channel) -> (r: SyncResult<()>) {
        self.0.pull(channel)
    }
}

/// Wire discriminant of [`Message::Opt1`]; all three variants are
/// unannotated, so the first-empty-slot rule gives 0, 1, 2 in declaration
/// order.
pub const OPT1_DISCR: i64 = 0;

/// Wire discriminant of [`Message::Opt2`].
pub const OPT2_DISCR: i64 = 1;

/// Wire discriminant of [`Message::Opt3`].
pub const OPT3_DISCR: i64 = 2;

/// A three-variant enum following the derivation contract: a unit variant, a
/// variant holding a string, and a variant holding two integers. The active
/// variant's discriminant travels first as a signed 8-byte integer, then its
/// fields in declared order.
#[derive(Debug, PartialEq, Eq)]
pub enum Message {
    Opt1,
    Opt2(String),
    Opt3(i64, i64),
}

/// The mathematical contents of a [`Message`].
pub enum MessageView {
    Opt1,
    Opt2(Seq<char>),
    Opt3(i64, i64),
}

impl DeepView for Message {
    type V = MessageView;

    open spec fn deep_view(&self) -> MessageView {
        match self {
            Message::Opt1 => MessageView::Opt1,
            Message::Opt2(s) => MessageView::Opt2(s@),
            Message::Opt3(a, b) => MessageView::Opt3(*a, *b),
        }
    }
}

impl RemoteObject for Message {
    open spec fn wire(&self) -> Seq<u8> {
        match self {
            Message::Opt1 => spec_u64_to_le_bytes(OPT1_DISCR as u64),
            Message::Opt2(s) => spec_u64_to_le_bytes(OPT2_DISCR as u64) + s.wire(),
            Message::Opt3(a, b) => spec_u64_to_le_bytes(OPT3_DISCR as u64) + a.wire() + b.wire(),
        }
    }

    open spec fn wire_fits(&self) -> bool {
        match self {
            Message::Opt2(s) => s.wire_fits(),
            _ => true,
        }
    }

    open spec fn decoded(bytes: Seq<u8>) -> Result<(MessageView, Seq<u8>), SyncError> {
        match <i64 as RemoteObject>::decoded(bytes) {
            Ok((d, rest)) => if d == OPT1_DISCR {
                Ok((MessageView::Opt1, rest))
            } else if d == OPT2_DISCR {
                match <String as RemoteObject>::decoded(rest) {
                    Ok((s, tail)) => Ok((MessageView::Opt2(s), tail)),
                    Err(e) => Err(e),
                }
            } else if d == OPT3_DISCR {
                match <i64 as RemoteObject>::decoded(rest) {
                    Ok((a, mid)) => match <i64 as RemoteObject>::decoded(mid) {
                        Ok((b, tail)) => Ok((MessageView::Opt3(a, b), tail)),
                        Err(e) => Err(e),
                    },
                    Err(e) => Err(e),
                }
            } else {
                // An unrecognized discriminant is a protocol or version
                // mismatch: a decode failure, not a crash.
                Err(SyncError::Utf8Error(0))
            },
            Err(e) => Err(e),
        }
    }

    proof fn lemma_round_trip(&self, rest: Seq<u8>) {
        match self {
            Message::Opt1 => {
                let d: i64 = OPT1_DISCR;
                assert(self.wire() + rest =~= d.wire() + rest);
                d.lemma_round_trip(rest);
            },
            Message::Opt2(s) => {
                let d: i64 = OPT2_DISCR;
                assert(self.wire() + rest =~= d.wire() + (s.wire() + rest));
                d.lemma_round_trip(s.wire() + rest);
                s.lemma_round_trip(rest);
            },
            Message::Opt3(a, b) => {
                let d: i64 = OPT3_DISCR;
                assert(self.wire() + rest =~= d.wire() + (a.wire() + (b.wire() + rest)));
                d.lemma_round_trip(a.wire() + (b.wire() + rest));
                a.lemma_round_trip(b.wire() + rest);
                b.lemma_round_trip(rest);
            },
        }
    }

    proof fn lemma_decoded_no_growth(bytes: Seq<u8>) {
        <i64 as RemoteObject>::lemma_decoded_no_growth(bytes);
        match <i64 as RemoteObject>::decoded(bytes) {
            Ok((d, rest)) => {
                <String as RemoteObject>::lemma_decoded_no_growth(rest);
                <i64 as RemoteObject>::lemma_decoded_no_growth(rest);
                match <i64 as RemoteObject>::decoded(rest) {
                    Ok((a, mid)) => {
                        <i64 as RemoteObject>::lemma_decoded_no_growth(mid);
                    },
                    Err(_) => {},
                }
            },
            Err(_) => {},
        }
    }

    fn push(&self, channel: &mut Channel) -> (r: SyncResult<()>) {
        match self {
            Message::Opt1 => OPT1_DISCR.push(channel),
            Message::Opt2(s) => {
                let pushed = OPT2_DISCR.push(channel);
                if let Err(e) = pushed {
                    return Err(e);
                }
                let r = s.push(channel);
                proof {
                    assert(channel.sent() =~= old(channel).sent() + self.wire());
                }
                r
            },
            Message::Opt3(a, b) => {
                let pushed = OPT3_DISCR.push(channel);
                if let Err(e) = pushed {
                    return Err(e);
                }
                let mid = a.push(channel);
                if let Err(e) = mid {
                    return Err(e);
                }
                let r = b.push(channel);
                proof {
                    assert(channel.sent() =~= old(channel).sent() + self.wire());
                }
                r
            },
        }
    }

    fn pull(&mut self, channel: &mut Channel) -> (r: SyncResult<()>) {
        let mut discr: i64 = 0;
        let got = discr.pull(channel);
        if let Err(e) = got {
            return Err(e);
        }
        if discr == OPT1_DISCR {
            *self = Message::Opt1;
            Ok(())
        } else if discr == OPT2_DISCR {
            let mut s = String::new();
            let got_s = s.pull(channel);
            if let Err(e) = got_s {
                return Err(e);
            }
            *self = Message::Opt2(s);
            Ok(())
        } else if discr == OPT3_DISCR {
            let mut a: i64 = 0;
            let got_a = a.pull(channel);
            if let Err(e) = got_a {
                return Err(e);
            }
            let mut b: i64 = 0;
            let got_b = b.pull(channel);
            if let Err(e) = got_b {
                return Err(e);
            }
            *self = Message::Opt3(a, b);
            Ok(())
        } else {
            Err(SyncError::Utf8Error(0))
        }
    }
}

} // verus!
