//! Identities: messages, turns, moments in time, and ids derived from other ids.

use vstd::arithmetic::power;
use vstd::prelude::*;
use vstd::utf8;

verus! {

/// The identity of one message. Two messages never share one.
#[derive(Debug, Clone, Copy, PartialEq, Eq, Hash, Structural)]
pub struct MessageId {
    pub value: u128,
}

/// The identity of one turn: a submission and everything it causes.
#[derive(Debug, Clone, Copy, PartialEq, Eq, Hash, Structural)]
pub struct TurnId {
    pub value: u128,
}

/// A moment, in nanoseconds since the Unix epoch.
#[derive(Debug, Clone, Copy, PartialEq, Eq, Hash, Structural)]
pub struct Timestamp {
    pub nanoseconds: i128,
}

impl DeepView for MessageId {
    type V = MessageId;

    open spec fn deep_view(&self) -> MessageId {
        *self
    }
}

impl DeepView for TurnId {
    type V = TurnId;

    open spec fn deep_view(&self) -> TurnId {
        *self
    }
}

impl DeepView for Timestamp {
    type V = Timestamp;

    open spec fn deep_view(&self) -> Timestamp {
        *self
    }
}

/// The turn that a message opens carries that message's identity.
pub open spec fn turn_opened_by(id: MessageId) -> TurnId {
    TurnId { value: id.value }
}

impl From<MessageId> for TurnId {
    fn from(id: MessageId) -> (res: Self) {
        TurnId { value: id.value }
    }
}

impl vstd::std_specs::convert::FromSpecImpl<MessageId> for TurnId {
    open spec fn obeys_from_spec() -> bool {
        true
    }

    open spec fn from_spec(id: MessageId) -> Self {
        turn_opened_by(id)
    }
}

impl MessageId {
    /// Mint an identity: a random UUID. Which one is chance.
    pub fn new() -> (res: Self)
        ensures
            is_random_uuid(res.value),
    {
        MessageId { value: random_uuid() }
    }

    /// The identity as text: a hyphenated lower-case UUID.
    pub fn to_text(&self) -> (res: String)
        ensures
            res@ == uuid_text(self.value),
    {
        uuid_to_text(self.value)
    }
}

impl Timestamp {
    /// The moment of the call. Which one rests on the clock.
    pub fn now() -> (res: Self)
        ensures
            in_calendar(res.nanoseconds as int),
    {
        Timestamp { nanoseconds: current_nanoseconds() }
    }
}

/// The Unix epoch.
impl Default for Timestamp {
    fn default() -> (res: Self)
        ensures
            res.nanoseconds == 0,
    {
        Timestamp { nanoseconds: 0 }
    }
}

/// The bits of a random UUID: version four in bits 76 to 79, and the variant that every current UUID
/// has in bits 62 and 63. All the other bits are chance.
pub open spec fn is_random_uuid(value: u128) -> bool {
    &&& value as int / 0x1000_0000_0000_0000_0000 % 16 == 4
    &&& value as int / 0x4000_0000_0000_0000 % 4 == 2
}

/// There are random UUIDs.
pub proof fn lemma_some_random_uuid() -> (value: u128)
    ensures
        is_random_uuid(value),
{
    0x4000_8000_0000_0000_0000
}

/// The moments that the calendar has, in nanoseconds since the Unix epoch: those that fall, in
/// whatever offset they are read, within the years -9999 to 9999.
pub open spec fn in_calendar(nanoseconds: int) -> bool {
    -377_705_023_201_000_000_000 <= nanoseconds <= 253_402_207_200_999_999_999
}

/// `Uuid::new_v4` of the `uuid` crate, as the 128 bits of its result. The version and the variant
/// are set; the other bits are random, so nothing is claimed of them.
#[verifier::external_body]
fn random_uuid() -> (res: u128)
    ensures
        is_random_uuid(res),
{
    uuid::Uuid::new_v4().as_u128()
}

/// `Timestamp::now` of the `jiff` crate, as nanoseconds since the Unix epoch. It reads the
/// system clock, so no more is claimed of the result than that it is a moment of the calendar, the
/// range of every `jiff::Timestamp`. A clock set outside that range makes the call panic.
#[verifier::external_body]
fn current_nanoseconds() -> (res: i128)
    ensures
        in_calendar(res as int),
{
    jiff::Timestamp::now().as_nanosecond()
}

/// The lower-case hexadecimal digit of a value below sixteen.
pub open spec fn hex_digit(n: int) -> char {
    if n < 10 {
        (48 + n) as char
    } else {
        (87 + n) as char
    }
}

/// The last `n` hexadecimal digits of `value`, most significant first.
pub open spec fn hex_digits(value: int, n: nat) -> Seq<char>
    decreases n,
{
    if n == 0 {
        Seq::empty()
    } else {
        hex_digits(value / 16, (n - 1) as nat).push(hex_digit(value % 16))
    }
}

/// A UUID as text: its thirty-two digits in groups of eight, four, four, four and twelve.
pub open spec fn uuid_text(value: u128) -> Seq<char> {
    let digits = hex_digits(value as int, 32);
    digits.subrange(0, 8) + seq!['-'] + digits.subrange(8, 12) + seq!['-'] + digits.subrange(12, 16)
        + seq!['-'] + digits.subrange(16, 20) + seq!['-'] + digits.subrange(20, 32)
}

/// What `Uuid::parse_str` of the `uuid` crate reads out of a text: the 128 bits of the UUID, or
/// `None` for a text that is not one.
pub uninterp spec fn uuid_parse(text: Seq<char>) -> Option<u128>;

/// What `Uuid::new_v5` of the `uuid` crate makes of a namespace and a name: the 128 bits of a
/// name-based UUID.
pub uninterp spec fn uuid_v5(namespace: u128, name: Seq<u8>) -> u128;

/// The `Display` text of a `Uuid` of the `uuid` crate with these 128 bits, most significant
/// first: the hyphenated lower-case form. `Uuid::parse_str` reads that form back to the same
/// bits.
#[verifier::external_body]
pub(crate) fn uuid_to_text(value: u128) -> (res: String)
    ensures
        res@ == uuid_text(value),
        uuid_parse(res@) == Some(value),
{
    uuid::Uuid::from_u128(value).to_string()
}

/// `Uuid::parse_str` of the `uuid` crate, as the 128 bits of the UUID it read, if any. The result
/// is named rather than described: the crate reads several written forms.
#[verifier::external_body]
pub(crate) fn parse_uuid(text: &str) -> (res: Option<u128>)
    ensures
        res == uuid_parse(text@),
{
    uuid::Uuid::parse_str(text).ok().map(|uuid| uuid.as_u128())
}

/// `Uuid::new_v5` of the `uuid` crate. The result is named rather than described: it is a hash of
/// the namespace and the name.
#[verifier::external_body]
pub(crate) fn name_based_uuid(namespace: u128, name: &[u8]) -> (res: u128)
    ensures
        res == uuid_v5(namespace, name@),
{
    uuid::Uuid::new_v5(&uuid::Uuid::from_u128(namespace), name).as_u128()
}

/// The text of a random UUID.
pub open spec fn is_fresh_id(id: Seq<char>) -> bool {
    exists|value: u128| is_random_uuid(value) && id == #[trigger] uuid_text(value)
}

/// Mint an id: the text of a random UUID.
pub fn fresh_id() -> (res: String)
    ensures
        is_fresh_id(res@),
{
    let value: u128 = random_uuid();
    uuid_to_text(value)
}

/// Namespace for hashing an id that is no UUID into a usable namespace. Arbitrary but fixed:
/// changing it changes every derived id.
pub const NON_UUID_NAMESPACE: u128 = 0x3f7a1c62_5be4_4d0f_9a31_c6d84b7e02f5;

/// The namespace that children of `parent` are derived in: the parent itself where it is a UUID,
/// and otherwise a hash of it, so that distinct parents keep distinct namespaces.
pub open spec fn child_namespace(parent: Seq<char>) -> u128 {
    match uuid_parse(parent) {
        Some(value) => value,
        None => uuid_v5(NON_UUID_NAMESPACE, utf8::encode_utf8(parent)),
    }
}

/// The id of the child of `parent` that goes by `name`.
pub open spec fn child_id(parent: Seq<char>, name: Seq<char>) -> Seq<char> {
    uuid_text(uuid_v5(child_namespace(parent), utf8::encode_utf8(name)))
}

/// Derive the id of the child of `parent` that goes by `name`. The child's id is always a UUID,
/// whatever the parent's is.
pub fn derive_child_id(parent: &str, name: &str) -> (res: String)
    ensures
        res@ == child_id(parent@, name@),
        uuid_parse(res@) == Some(uuid_v5(child_namespace(parent@), utf8::encode_utf8(name@))),
{
    let namespace: u128 = match parse_uuid(parent) {
        Some(value) => value,
        None => name_based_uuid(NON_UUID_NAMESPACE, parent.as_bytes()),
    };
    uuid_to_text(name_based_uuid(namespace, name.as_bytes()))
}

proof fn lemma_hex_digits_len(value: int, n: nat)
    ensures
        hex_digits(value, n).len() == n,
    decreases n,
{
    if n > 0 {
        lemma_hex_digits_len(value / 16, (n - 1) as nat);
    }
}

proof fn lemma_hex_digits_injective(a: int, b: int, n: nat)
    requires
        0 <= a < power::pow(16, n),
        0 <= b < power::pow(16, n),
        hex_digits(a, n) == hex_digits(b, n),
    ensures
        a == b,
    decreases n,
{
    if n == 0 {
        power::lemma_pow0(16);
    } else {
        let m = (n - 1) as nat;
        lemma_hex_digits_len(a / 16, m);
        lemma_hex_digits_len(b / 16, m);
        let x = hex_digits(a / 16, m);
        let y = hex_digits(b / 16, m);
        let p = x.push(hex_digit(a % 16));
        let q = y.push(hex_digit(b % 16));
        assert(p[m as int] == q[m as int]);
        assert(x =~= y) by {
            assert forall|i: int| 0 <= i < m implies x[i] == y[i] by {
                assert(p[i] == q[i]);
            }
        }
        assert(power::pow(16, n) == 16 * power::pow(16, m)) by {
            reveal(power::pow);
        }
        lemma_hex_digits_injective(a / 16, b / 16, m);
    }
}

proof fn lemma_uuid_range(value: u128)
    ensures
        0 <= value < power::pow(16, 32),
{
    assert(power::pow(16, 32) == 0x1_0000_0000_0000_0000_0000_0000_0000_0000) by {
        reveal_with_fuel(power::pow, 33);
    }
}

/// Two UUIDs with the same text are the same UUID.
pub proof fn lemma_uuid_text_identifies(a: u128, b: u128)
    ensures
        uuid_text(a).len() == 36,
        uuid_text(a) == uuid_text(b) ==> a == b,
{
    let x = hex_digits(a as int, 32);
    let y = hex_digits(b as int, 32);
    lemma_hex_digits_len(a as int, 32);
    lemma_hex_digits_len(b as int, 32);
    if uuid_text(a) == uuid_text(b) {
        let s = uuid_text(a);
        let t = uuid_text(b);
        assert forall|i: int| 0 <= i < 32 implies x[i] == y[i] by {
            let at = if i < 8 {
                i
            } else if i < 12 {
                i + 1
            } else if i < 16 {
                i + 2
            } else if i < 20 {
                i + 3
            } else {
                i + 4
            };
            assert(s[at] == x[i]);
            assert(t[at] == y[i]);
        }
        assert(x =~= y);
        lemma_uuid_range(a);
        lemma_uuid_range(b);
        lemma_hex_digits_injective(a as int, b as int, 32);
    }
}

}
