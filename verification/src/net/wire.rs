//! Telling messages apart by scanning their top-level protobuf tags.
use vstd::prelude::*;

use crate::text;

verus! {

/// Trusted declaration of prost's error type; nothing is claimed of it.
#[verifier::external_type_specification]
#[verifier::external_body]
pub struct ExDecodeError(prost::DecodeError);

/// Whether prost can walk the fields of a message: read every tag and move over
/// every value, down to its last byte.
pub uninterp spec fn walkable(bytes: Seq<u8>) -> bool;

/// Trusted: `prost::Message::decode` of the empty message `()`, which reads each
/// top-level tag and skips its value. It succeeds exactly on the bytes named
/// [`walkable`]; on no bytes at all it succeeds, and where every byte has its
/// high bit set the first tag never ends and it fails.
#[verifier::external_body]
fn walk(bytes: &[u8]) -> (res: Result<(), prost::DecodeError>)
    ensures
        res is Ok <==> walkable(bytes@),
        bytes@.len() == 0 ==> res is Ok,
        bytes@.len() > 0 && (forall|i: int| 0 <= i < bytes@.len() ==> bytes@[i] >= 128)
            ==> res is Err,
{
    <() as prost::Message>::decode(bytes)
}

/// Whether a datagram can be a protobuf message at all. A message of any type
/// that decodes is readable in this sense.
pub fn readable(bytes: &[u8]) -> (res: bool)
    ensures
        res == walkable(bytes@),
        bytes@.len() == 0 ==> res,
        bytes@.len() > 0 && (forall|i: int| 0 <= i < bytes@.len() ==> bytes@[i] >= 128) ==> !res,
{
    match walk(bytes) {
        Ok(_) => true,
        Err(_) => false,
    }
}

/// A protobuf varint at the front of `b`, as its value and the number of bytes
/// it takes: little-endian base 128, the high bit set on every byte but the
/// last. `None` when the last byte does not come within `limit` bytes or the
/// bytes end before it.
pub open spec fn varint(b: Seq<u8>, limit: nat) -> Option<(nat, nat)>
    decreases limit,
{
    if limit == 0 || b.len() == 0 {
        None
    } else if b[0] < 128 {
        Some((b[0] as nat, 1))
    } else {
        match varint(b.skip(1), (limit - 1) as nat) {
            Some((v, n)) => Some(((b[0] - 128 + 128 * v) as nat, n + 1)),
            None => None,
        }
    }
}

/// The longest varint, in bytes.
pub const MAX_VARINT: usize = 10;

/// What the varint at the front of `b` says, cut to 64 bits.
pub open spec fn varint_value(b: Seq<u8>) -> u64 {
    (varint(b, MAX_VARINT as nat).unwrap().0 % 0x1_0000_0000_0000_0000) as u64
}

/// How many bytes the varint at the front of `b` takes.
pub open spec fn varint_len(b: Seq<u8>) -> nat {
    varint(b, MAX_VARINT as nat).unwrap().1
}

/// Whether `b` starts with a varint.
pub open spec fn has_varint(b: Seq<u8>) -> bool {
    varint(b, MAX_VARINT as nat) is Some
}

/// How many bytes are taken off the front of `b` in search of a varint: those of
/// the varint or, where there is none, as many as one can have.
pub open spec fn varint_taken(b: Seq<u8>) -> nat {
    if has_varint(b) {
        varint_len(b)
    } else if b.len() < MAX_VARINT {
        b.len()
    } else {
        MAX_VARINT as nat
    }
}

/// How many bytes the value of a field of wire type `wire` takes at the front of
/// `b`; `None` when it does not fit or the wire type has no skippable value.
pub open spec fn value_len(b: Seq<u8>, wire: int) -> Option<nat> {
    if wire == 0 {
        if has_varint(b) {
            Some(varint_len(b))
        } else {
            None
        }
    } else if wire == 1 {
        if b.len() >= 8 {
            Some(8)
        } else {
            None
        }
    } else if wire == 2 {
        if has_varint(b) && varint_len(b) + varint_value(b) <= b.len() {
            Some((varint_len(b) + varint_value(b)) as nat)
        } else {
            None
        }
    } else if wire == 5 {
        if b.len() >= 4 {
            Some(4)
        } else {
            None
        }
    } else {
        None
    }
}

/// What is left of `b` where no value of wire type `wire` could be moved over: a
/// varint that was looked for is gone, and nothing else.
pub open spec fn after_bad_value(b: Seq<u8>, wire: int) -> Seq<u8> {
    if wire == 0 || wire == 2 {
        b.skip(varint_taken(b) as int)
    } else {
        b
    }
}

/// The field at the front of `b`: its number, its wire type and the bytes that
/// tag and value take. `None` when it is malformed, its number is 0 or over
/// 32 bits, or its value does not fit.
pub open spec fn field_at(b: Seq<u8>) -> Option<(u32, u8, nat)> {
    if !has_varint(b) {
        None
    } else {
        let tag = varint_value(b);
        let wire = tag % 8;
        if tag / 8 == 0 || tag / 8 > u32::MAX {
            None
        } else {
            match value_len(b.skip(varint_len(b) as int), wire as int) {
                Some(n) => Some(((tag / 8) as u32, wire as u8, varint_len(b) + n)),
                None => None,
            }
        }
    }
}

/// What is left of `b` where its first field is malformed: the tag is gone and,
/// where the tag is good, what was taken in search of the value.
pub open spec fn after_bad_field(b: Seq<u8>) -> Seq<u8> {
    let rest = b.skip(varint_taken(b) as int);
    let tag = varint_value(b);
    if !has_varint(b) || tag / 8 == 0 || tag / 8 > u32::MAX {
        rest
    } else {
        after_bad_value(rest, (tag % 8) as int)
    }
}

/// Number and wire type of the top-level fields of `b`, up to the first
/// malformed one.
pub open spec fn fields(b: Seq<u8>) -> Seq<(u32, u8)>
    decreases b.len(),
{
    match field_at(b) {
        Some((field, wire, n)) => if 0 < n <= b.len() {
            seq![(field, wire)] + fields(b.skip(n as int))
        } else {
            seq![]
        },
        None => seq![],
    }
}

/// Whether one top-level field shows that a datagram is a
/// `SimulationSyncRequest`, which is `{1: float sim_step, 2: SimulatorCommand,
/// 3: RobotControl}`.
///
/// On a team port the other message is `RobotControl` (`{1: repeated
/// RobotCommand}`), so anything but field 1 with wire type 2 does. On the
/// control port it is `SimulatorCommand` (`{1: SimulatorControl,
/// 2: SimulatorConfig}`), so only a fixed32 field 1 or a field 3 does.
pub open spec fn decisive(field: u32, wire: u8, primary_is_robot_control: bool) -> bool {
    if primary_is_robot_control {
        !(field == 1 && wire == 2)
    } else {
        (field == 1 && wire == 5) || field == 3
    }
}

/// Whether any top-level field is decisive for a sync request.
pub open spec fn sync_shaped(b: Seq<u8>, primary_is_robot_control: bool) -> bool {
    exists|i: int|
        0 <= i < fields(b).len() && decisive(
            (#[trigger] fields(b)[i]).0,
            fields(b)[i].1,
            primary_is_robot_control,
        )
}

/// A bound on the value of a varint of at most `limit` bytes.
spec fn power(limit: nat) -> nat
    decreases limit,
{
    if limit == 0 {
        1
    } else {
        128 * power((limit - 1) as nat)
    }
}

proof fn lemma_varint(b: Seq<u8>, limit: nat)
    ensures
        varint(b, limit) matches Some((v, n)) ==> 0 < n <= b.len() && n <= limit && v < power(limit),
    decreases limit,
{
    if limit > 0 && b.len() > 0 {
        lemma_varint(b.skip(1), (limit - 1) as nat);
        lemma_power((limit - 1) as nat);
    }
}

proof fn lemma_power(limit: nat)
    ensures
        power(limit) >= 1,
    decreases limit,
{
    if limit > 0 {
        lemma_power((limit - 1) as nat);
    }
}

proof fn lemma_power_max()
    ensures
        power(10) == 0x40_0000_0000_0000_0000,
{
    reveal_with_fuel(power, 11);
}

/// The length of a scanned field is at least one byte and within the input.
proof fn lemma_field(b: Seq<u8>)
    ensures
        field_at(b) matches Some((f, w, n)) ==> 0 < n <= b.len(),
{
    lemma_varint(b, 10);
    if has_varint(b) {
        let rest = b.skip(varint_len(b) as int);
        lemma_varint(rest, 10);
    }
}

/// Value and length of the varint at `at`, within `limit` bytes.
fn varint_at(buf: &[u8], at: usize, limit: usize) -> (res: Option<(u128, usize)>)
    requires
        at <= buf@.len(),
        limit <= MAX_VARINT,
    ensures
        match res {
            Some((v, n)) => varint(buf@.skip(at as int), limit as nat) == Some((v as nat, n as nat))
                && n <= buf@.len() - at,
            None => varint(buf@.skip(at as int), limit as nat) is None,
        },
    decreases limit,
{
    if limit == 0 || at >= buf.len() {
        return None;
    }
    let byte = buf[at];
    if byte < 128 {
        return Some((byte as u128, 1));
    }
    proof {
        assert(buf@.skip(at as int).skip(1) =~= buf@.skip(at + 1));
        lemma_varint(buf@.skip(at + 1), (limit - 1) as nat);
        lemma_power_monotone((limit - 1) as nat, 10);
        lemma_power_max();
    }
    match varint_at(buf, at + 1, limit - 1) {
        Some((v, n)) => Some(((byte - 128) as u128 + 128 * v, n + 1)),
        None => None,
    }
}

proof fn lemma_power_monotone(a: nat, b: nat)
    requires
        a <= b,
    ensures
        power(a) <= power(b),
    decreases b,
{
    if a < b {
        lemma_power_monotone(a, (b - 1) as nat);
    }
}

/// Walks the `(field_number, wire_type)` pairs of a protobuf message's
/// top-level fields. Stops at the first malformed byte.
pub struct TagScan<'a> {
    buf: &'a [u8],
    pos: usize,
}

impl<'a> TagScan<'a> {
    /// The scan stands within its input.
    pub closed spec fn wf(&self) -> bool {
        self.pos <= self.buf@.len()
    }

    /// The bytes still to be scanned.
    pub closed spec fn rest(&self) -> Seq<u8> {
        self.buf@.skip(self.pos as int)
    }

    /// A scan of `buf` from its first byte.
    pub fn new(buf: &'a [u8]) -> (res: Self)
        ensures
            res.wf(),
            res.rest() == buf@,
    {
        let res = Self { buf, pos: 0 };
        assert(buf@.skip(0) =~= buf@);
        res
    }

    /// Take a varint off the front; bits over the 64th are dropped. `None` at
    /// the end of the input and after ten bytes without an end; the bytes looked
    /// at are gone then too.
    pub fn varint(&mut self) -> (res: Option<u64>)
        requires
            old(self).wf(),
        ensures
            final(self).wf(),
            final(self).rest() == old(self).rest().skip(varint_taken(old(self).rest()) as int),
            match res {
                Some(v) => has_varint(old(self).rest()) && v == varint_value(old(self).rest()),
                None => !has_varint(old(self).rest()),
            },
    {
        let total: usize = self.buf.len();
        match varint_at(self.buf, self.pos, MAX_VARINT) {
            Some((v, n)) => {
                let ghost before = self.rest();
                self.pos += n;
                assert(self.rest() =~= before.skip(n as int));
                Some((v % 0x1_0000_0000_0000_0000) as u64)
            },
            None => {
                let ghost before = self.rest();
                let left: usize = total - self.pos;
                let taken: usize = if left < MAX_VARINT {
                    left
                } else {
                    MAX_VARINT
                };
                self.pos += taken;
                assert(self.rest() =~= before.skip(taken as int));
                None
            },
        }
    }

    /// Move over the value of a field of wire type `wire`; `None` when it does
    /// not fit or the wire type has no skippable value.
    pub fn skip(&mut self, wire: u8) -> (res: Option<()>)
        requires
            old(self).wf(),
        ensures
            final(self).wf(),
            match value_len(old(self).rest(), wire as int) {
                Some(n) => res is Some && n <= old(self).rest().len() && final(self).rest() == old(
                    self,
                ).rest().skip(n as int),
                None => res is None && final(self).rest() == after_bad_value(
                    old(self).rest(),
                    wire as int,
                ),
            },
    {
        let ghost before = self.rest();
        if wire == 0 {
            proof {
                lemma_varint(before, 10);
            }
            self.varint()?;
            Some(())
        } else if wire == 1 {
            if self.buf.len() - self.pos < 8 {
                return None;
            }
            self.pos += 8;
            assert(self.rest() =~= before.skip(8));
            Some(())
        } else if wire == 2 {
            proof {
                lemma_varint(before, 10);
            }
            let len: u64 = self.varint()?;
            let left: usize = self.buf.len() - self.pos;
            assert(self.rest().len() == left);
            assert(before.len() == varint_len(before) + left);
            if (left as u64) < len {
                return None;
            }
            let ghost middle = self.rest();
            self.pos += len as usize;
            assert(self.rest() =~= middle.skip(len as int));
            assert(self.rest() =~= before.skip((varint_len(before) + len) as int));
            Some(())
        } else if wire == 5 {
            if self.buf.len() - self.pos < 4 {
                return None;
            }
            self.pos += 4;
            assert(self.rest() =~= before.skip(4));
            Some(())
        } else {
            None
        }
    }

    /// The next field's number and wire type; `None` at the end of the input
    /// and at a malformed field.
    pub fn next(&mut self) -> (res: Option<(u32, u8)>)
        requires
            old(self).wf(),
        ensures
            final(self).wf(),
            match field_at(old(self).rest()) {
                Some((field, wire, n)) => res == Some((field, wire)) && 0 < n <= old(
                    self,
                ).rest().len() && final(self).rest() == old(self).rest().skip(n as int),
                None => res is None && final(self).rest() == after_bad_field(old(self).rest()),
            },
    {
        let ghost before = self.rest();
        proof {
            lemma_field(before);
        }
        let tag: u64 = self.varint()?;
        let field: u64 = tag / 8;
        let wire: u8 = (tag % 8) as u8;
        if field == 0 || field > u32::MAX as u64 {
            return None;
        }
        let ghost middle = self.rest();
        self.skip(wire)?;
        proof {
            let n = value_len(middle, wire as int)->0;
            assert(middle.skip(n as int) =~= before.skip((varint_len(before) + n) as int));
        }
        Some((field as u32, wire))
    }
}

/// Decide whether a datagram is a `SimulationSyncRequest` rather than the
/// port's primary message, by scanning top-level protobuf tags.
///
/// On the control port an indecisive datagram may still be one; the caller falls
/// back to trying both decoders.
pub fn looks_like_sync(bytes: &[u8], primary_is_robot_control: bool) -> (res: bool)
    ensures
        res == sync_shaped(bytes@, primary_is_robot_control),
{
    let mut scan = TagScan::new(bytes);
    let ghost all = fields(bytes@);
    let ghost mut done: int = 0;
    loop
        invariant
            scan.wf(),
            all == fields(bytes@),
            0 <= done <= all.len(),
            all.skip(done) == fields(scan.rest()),
            forall|i: int|
                0 <= i < done ==> !decisive(
                    (#[trigger] all[i]).0,
                    all[i].1,
                    primary_is_robot_control,
                ),
        decreases scan.rest().len(),
    {
        let ghost before = scan.rest();
        match scan.next() {
            Some((field, wire)) => {
                proof {
                    assert(fields(before) == seq![(field, wire)] + fields(scan.rest()));
                    assert(all.skip(done)[0] == all[done]);
                }
                let found = if primary_is_robot_control {
                    !(field == 1 && wire == 2)
                } else {
                    (field == 1 && wire == 5) || field == 3
                };
                if found {
                    assert(decisive(all[done].0, all[done].1, primary_is_robot_control));
                    return true;
                }
                proof {
                    assert(all.skip(done).skip(1) =~= all.skip(done + 1));
                    assert(fields(before).skip(1) =~= fields(scan.rest()));
                    done = done + 1;
                }
            },
            None => {
                assert(all.skip(done).len() == 0);
                return false;
            },
        }
    }
}

/// The bytes as two lower-case hexadecimal digits each.
pub open spec fn hex(b: Seq<u8>) -> Seq<char>
    decreases b.len(),
{
    if b.len() == 0 {
        seq![]
    } else {
        hex(b.drop_last()).push(text::digit(b.last() as int / 16)).push(
            text::digit(b.last() as int % 16),
        )
    }
}

/// Hex dump of the first `n` bytes, with `...` behind it when there are more.
pub fn hex_prefix(bytes: &[u8], n: usize) -> (res: String)
    ensures
        res@ == if bytes@.len() > n {
            hex(bytes@.take(n as int)) + "..."@
        } else {
            hex(bytes@)
        },
{
    let mut s = String::new();
    let end: usize = if bytes.len() > n {
        n
    } else {
        bytes.len()
    };
    let mut i: usize = 0;
    while i < end
        invariant
            i <= end <= bytes@.len(),
            s@ == hex(bytes@.take(i as int)),
        decreases end - i,
    {
        let b = bytes[i];
        s.push(text::digit_char(b / 16));
        s.push(text::digit_char(b % 16));
        i += 1;
        assert(bytes@.take(i as int).drop_last() =~= bytes@.take(i - 1));
    }
    if bytes.len() > n {
        s.append("...");
    } else {
        assert(bytes@.take(i as int) =~= bytes@);
    }
    s
}

/// A message whose top-level fields are all length-delimited field 1, as those
/// of every `RobotControl` are, is never taken for a sync request, on either
/// kind of port.
pub proof fn law_robot_control_is_not_sync(b: Seq<u8>, primary_is_robot_control: bool)
    requires
        forall|i: int| 0 <= i < fields(b).len() ==> #[trigger] fields(b)[i] == (1u32, 2u8),
    ensures
        !sync_shaped(b, primary_is_robot_control),
{
}

/// A message that holds a `sim_step` (a fixed32 field 1) or a robot control
/// (field 3) is taken for a sync request on every port, wherever in the message
/// that field stands.
pub proof fn law_sync_fields_decide(b: Seq<u8>, i: int, primary_is_robot_control: bool)
    requires
        0 <= i < fields(b).len(),
        fields(b)[i] == (1u32, 5u8) || fields(b)[i].0 == 3,
    ensures
        sync_shaped(b, primary_is_robot_control),
{
}

/// What is decisive on the control port is decisive on a team port too.
pub proof fn law_control_port_is_stricter(b: Seq<u8>)
    ensures
        sync_shaped(b, false) ==> sync_shaped(b, true),
{
    if sync_shaped(b, false) {
        let i = choose|i: int|
            0 <= i < fields(b).len() && decisive((#[trigger] fields(b)[i]).0, fields(b)[i].1, false);
        assert(decisive(fields(b)[i].0, fields(b)[i].1, true));
    }
}

/// A number as a varint is written: seven bits a byte, the lowest first, the high bit
/// set on every byte but the last.
pub open spec fn encoded(v: nat) -> Seq<u8>
    decreases v,
{
    if v < 128 {
        seq![v as u8]
    } else {
        seq![(128 + v % 128) as u8] + encoded(v / 128)
    }
}

/// A varint reads back as it was written, whatever follows, as long as its bytes are not
/// more than the limit.
pub proof fn law_varints_read_back(v: nat, rest: Seq<u8>, limit: nat)
    requires
        encoded(v).len() <= limit,
    ensures
        varint(encoded(v) + rest, limit) == Some((v, encoded(v).len())),
        encoded(v).len() >= 1,
    decreases v,
{
    let all = encoded(v) + rest;
    if v >= 128 {
        let tail = encoded(v / 128);
        assert(encoded(v).len() == 1 + tail.len());
        law_varints_read_back(v / 128, rest, (limit - 1) as nat);
        assert(all.skip(1) =~= tail + rest);
        assert(all[0] == (128 + v % 128) as u8);
    } else {
        assert(all[0] == v as u8);
    }
}

/// Numbers of 64 bits take ten bytes at most.
pub proof fn law_varints_of_64_bits_are_read(v: u64, rest: Seq<u8>)
    ensures
        encoded(v as nat).len() <= 10,
        has_varint(encoded(v as nat) + rest),
        varint_value(encoded(v as nat) + rest) == v,
        varint_len(encoded(v as nat) + rest) == encoded(v as nat).len(),
        varint_taken(encoded(v as nat) + rest) == encoded(v as nat).len(),
{
    lemma_power_max();
    lemma_encoded_len(v as nat, 10);
    law_varints_read_back(v as nat, rest, 10);
}

proof fn lemma_encoded_len(v: nat, limit: nat)
    requires
        limit > 0,
        v < power(limit),
    ensures
        encoded(v).len() <= limit,
    decreases v,
{
    if v >= 128 {
        lemma_power(0);
        if limit == 1 {
            reveal_with_fuel(power, 2);
            assert(false);
        }
        assert(v < 128 * power((limit - 1) as nat));
        lemma_encoded_len(v / 128, (limit - 1) as nat);
    }
}

/// A varint is there exactly if one of the first ten bytes has its high bit clear, and
/// it ends with the first of them; where there is none, all bytes up to the tenth are
/// gone.
pub proof fn law_varints_end_with_a_clear_bit(b: Seq<u8>, limit: nat)
    ensures
        varint(b, limit) matches Some((v, n)) ==> 0 < n <= b.len() && n <= limit && b[n - 1] < 128
            && forall|i: int| 0 <= i < n - 1 ==> #[trigger] b[i] >= 128,
        varint(b, limit) is None ==> forall|i: int| 0 <= i < b.len() && i < limit ==> #[trigger] b[i] >= 128,
        !has_varint(b) ==> varint_taken(b) == if b.len() < 10 {
            b.len()
        } else {
            10
        },
    decreases limit,
{
    if limit > 0 && b.len() > 0 && b[0] >= 128 {
        let rest = b.skip(1);
        law_varints_end_with_a_clear_bit(rest, (limit - 1) as nat);
        if let Some((v, n)) = varint(b, limit) {
            assert(rest[n - 2] == b[n - 1]);
            assert forall|i: int| 0 <= i < n - 1 implies #[trigger] b[i] >= 128 by {
                if i > 0 {
                    assert(rest[i - 1] == b[i]);
                }
            }
        } else {
            assert forall|i: int| 0 <= i < b.len() && i < limit implies #[trigger] b[i] >= 128 by {
                if i > 0 {
                    assert(rest[i - 1] == b[i]);
                }
            }
        }
    }
}

/// A field's value as it is written for each wire type: a varint, eight bytes, a length
/// and as many bytes, or four bytes.
pub open spec fn is_value(wire: u8, value: Seq<u8>) -> bool {
    ||| wire == 0 && exists|x: u64| value == #[trigger] encoded(x as nat)
    ||| wire == 1 && value.len() == 8
    ||| wire == 2 && exists|data: Seq<u8>|
        data.len() <= u64::MAX && value == #[trigger] (encoded(data.len()) + data)
    ||| wire == 5 && value.len() == 4
}

/// A scan reads every well-formed field, in order: a tag made of the number and the wire
/// type, and a value of that type, whatever follows it.
pub proof fn law_fields_read_back(field: u32, wire: u8, value: Seq<u8>, rest: Seq<u8>)
    requires
        field > 0,
        is_value(wire, value),
    ensures
        ({
            let b = encoded((field * 8 + wire) as nat) + value + rest;
            &&& field_at(b) == Some(
                (field, wire, (encoded((field * 8 + wire) as nat).len() + value.len()) as nat),
            )
            &&& fields(b) == seq![(field, wire)] + fields(rest)
        }),
{
    let tag: u64 = (field * 8 + wire) as u64;
    let t = encoded(tag as nat);
    let b = t + value + rest;
    assert(b =~= t + (value + rest));
    law_varints_of_64_bits_are_read(tag, value + rest);
    assert(b.skip(t.len() as int) =~= value + rest);
    if wire == 0 {
        let x = choose|x: u64| value == #[trigger] encoded(x as nat);
        law_varints_of_64_bits_are_read(x, rest);
    } else if wire == 2 {
        let data = choose|data: Seq<u8>|
            data.len() <= u64::MAX && value == #[trigger] (encoded(data.len()) + data);
        law_varints_of_64_bits_are_read(data.len() as u64, data + rest);
        assert(value + rest =~= encoded(data.len()) + (data + rest));
    }
    assert(value_len(value + rest, wire as int) == Some(value.len()));
    assert(b.skip((t.len() + value.len()) as int) =~= rest);
}

/// A scan stops at a field with number zero, at one whose wire type has no value to move
/// over, and where no tag is.
pub proof fn law_scans_stop_at_bad_fields(tag: u64, rest: Seq<u8>, b: Seq<u8>)
    ensures
        tag / 8 == 0 || tag / 8 > u32::MAX || tag % 8 == 3 || tag % 8 == 4 || tag % 8 == 6 || tag % 8 == 7
            ==> fields(encoded(tag as nat) + rest).len() == 0,
        !has_varint(b) ==> fields(b).len() == 0,
        tag % 8 == 1 && rest.len() < 8 ==> fields(encoded(tag as nat) + rest).len() == 0,
        tag % 8 == 5 && rest.len() < 4 ==> fields(encoded(tag as nat) + rest).len() == 0,
        tag % 8 == 0 && !has_varint(rest) ==> fields(encoded(tag as nat) + rest).len() == 0,
        tag % 8 == 2 && has_varint(rest) && varint_value(rest) > rest.len() - varint_len(rest) ==> fields(
            encoded(tag as nat) + rest,
        ).len() == 0,
{
    law_varints_of_64_bits_are_read(tag, rest);
    let all = encoded(tag as nat) + rest;
    assert(all.skip(encoded(tag as nat).len() as int) =~= rest);
}

/// On a team port every field but a length-delimited field 1 is decisive; on the control
/// port only a fixed32 field 1 and any field 3.
pub proof fn law_decisive_fields(field: u32, wire: u8)
    ensures
        decisive(field, wire, true) <==> field != 1 || wire != 2,
        decisive(field, wire, false) <==> field == 3 || (field == 1 && wire == 5),
{
}

/// Whether a message is shaped like a sync request is decided by any of its fields.
pub proof fn law_any_field_decides(b: Seq<u8>, i: int, primary_is_robot_control: bool)
    ensures
        0 <= i < fields(b).len() && decisive(fields(b)[i].0, fields(b)[i].1, primary_is_robot_control)
            ==> sync_shaped(b, primary_is_robot_control),
        sync_shaped(b, primary_is_robot_control) ==> exists|k: int|
            0 <= k < fields(b).len() && decisive(
                (#[trigger] fields(b)[k]).0,
                fields(b)[k].1,
                primary_is_robot_control,
            ),
{
}

/// Each byte is two digits, the higher one first.
pub proof fn law_hex_is_two_digits_a_byte(b: Seq<u8>, i: int)
    requires
        0 <= i < b.len(),
    ensures
        hex(b).len() == 2 * b.len(),
        hex(b)[2 * i] == text::digit(b[i] as int / 16),
        hex(b)[2 * i + 1] == text::digit(b[i] as int % 16),
    decreases b.len(),
{
    let rest = b.drop_last();
    if i < rest.len() {
        law_hex_is_two_digits_a_byte(rest, i);
    } else if rest.len() > 0 {
        law_hex_is_two_digits_a_byte(rest, 0);
    } else {
        assert(hex(rest).len() == 0);
    }
}

/// A scan that stops is behind the tag, and behind the length or varint that it looked
/// for where the tag is good; fixed values and unknown types are not moved over.
pub proof fn law_stopped_scans_stand_behind_the_tag(tag: u64, rest: Seq<u8>)
    requires
        field_at(encoded(tag as nat) + rest) is None,
    ensures
        ({
            let left = after_bad_field(encoded(tag as nat) + rest);
            let good = 0 < tag / 8 <= u32::MAX;
            &&& !good || !(tag % 8 == 0 || tag % 8 == 2) ==> left == rest
            &&& good && (tag % 8 == 0 || tag % 8 == 2) ==> left == rest.skip(varint_taken(rest) as int)
        }),
{
    law_varints_of_64_bits_are_read(tag, rest);
    let b = encoded(tag as nat) + rest;
    assert(b.skip(encoded(tag as nat).len() as int) =~= rest);
}

/// Of a longer number the lower 64 bits count.
pub proof fn law_varints_are_cut_to_64_bits(b: Seq<u8>)
    ensures
        varint(b, 10) matches Some((v, n)) ==> has_varint(b) && varint_len(b) == n && varint_value(b) as nat
            == v % 0x1_0000_0000_0000_0000,
        varint(b, 10) is None ==> !has_varint(b),
{
}

} // verus!
