use vstd::prelude::*;

verus! {

/// What an envelope holds, as mathematical values.
pub struct EnvelopeView {
    pub id: u128,
    pub created_at: int,
    pub payload: Seq<char>,
    pub event_name: Seq<char>,
}

/// A dispatched event: identifier, creation time (seconds since the Unix
/// epoch), serialized payload, and the event name used for routing.
#[derive(Debug, Clone)]
pub struct DispatchedEvent {
    id: u128,
    created_at: i64,
    data: String,
    name: String,
}

/// The wire form of an envelope, as mathematical values.
pub struct WireView {
    pub id: Seq<char>,
    pub created_at: int,
    pub payload: Seq<char>,
    pub event_name: Seq<char>,
}

/// The wire form of an envelope: the identifier as text, and the other
/// fields as they are.
pub struct WireEnvelope {
    pub id: String,
    pub created_at: i64,
    pub payload: String,
    pub event_name: String,
}

impl View for WireEnvelope {
    type V = WireView;

    open spec fn view(&self) -> WireView {
        WireView {
            id: self.id@,
            created_at: self.created_at as int,
            payload: self.payload@,
            event_name: self.event_name@,
        }
    }
}

/// The lowercase hexadecimal digit for `d < 16`.
pub open spec fn hex_digit(d: nat) -> char {
    if d == 0 { '0' } else if d == 1 { '1' } else if d == 2 { '2' } else if d == 3 { '3' }
    else if d == 4 { '4' } else if d == 5 { '5' } else if d == 6 { '6' } else if d == 7 { '7' }
    else if d == 8 { '8' } else if d == 9 { '9' } else if d == 10 { 'a' } else if d == 11 { 'b' }
    else if d == 12 { 'c' } else if d == 13 { 'd' } else if d == 14 { 'e' } else { 'f' }
}

/// The `n` lowest hexadecimal digits of `x`, most significant first.
pub open spec fn hex_digits(x: nat, n: nat) -> Seq<char>
    decreases n,
{
    if n == 0 {
        Seq::empty()
    } else {
        hex_digits(x / 16, (n - 1) as nat).push(hex_digit(x % 16))
    }
}

/// The hyphenated lowercase text of a 128-bit identifier: its 32
/// hexadecimal digits in groups of 8, 4, 4, 4 and 12.
pub open spec fn uuid_text(id: u128) -> Seq<char> {
    let h = hex_digits(id as nat, 32);
    h.subrange(0, 8) + seq!['-'] + h.subrange(8, 12) + seq!['-'] + h.subrange(12, 16) + seq!['-']
        + h.subrange(16, 20) + seq!['-'] + h.subrange(20, 32)
}

/// The wire form of envelope `v`.
pub open spec fn encoded(v: EnvelopeView) -> WireView {
    WireView {
        id: uuid_text(v.id),
        created_at: v.created_at,
        payload: v.payload,
        event_name: v.event_name,
    }
}

/// The envelope whose wire form is `w`, where its identifier is in the
/// hyphenated lowercase form.
pub open spec fn decoded(w: WireView) -> Option<EnvelopeView> {
    if exists|x: u128| uuid_text(x) == w.id {
        Some(
            EnvelopeView {
                id: choose|x: u128| uuid_text(x) == w.id,
                created_at: w.created_at,
                payload: w.payload,
                event_name: w.event_name,
            },
        )
    } else {
        None
    }
}

spec fn pow16(n: nat) -> nat
    decreases n,
{
    if n == 0 {
        1
    } else {
        16 * pow16((n - 1) as nat)
    }
}

proof fn lemma_hex_digits_len(x: nat, n: nat)
    ensures
        hex_digits(x, n).len() == n,
    decreases n,
{
    if n > 0 {
        lemma_hex_digits_len(x / 16, (n - 1) as nat);
    }
}

proof fn lemma_hex_digits_injective(x: nat, y: nat, n: nat)
    requires
        x < pow16(n),
        y < pow16(n),
        hex_digits(x, n) == hex_digits(y, n),
    ensures
        x == y,
    decreases n,
{
    if n > 0 {
        let p = pow16((n - 1) as nat);
        let a = hex_digits(x / 16, (n - 1) as nat);
        let b = hex_digits(y / 16, (n - 1) as nat);
        assert(a.push(hex_digit(x % 16)).last() == hex_digit(x % 16));
        assert(b.push(hex_digit(y % 16)).last() == hex_digit(y % 16));
        assert(x % 16 == y % 16);
        assert(a =~= a.push(hex_digit(x % 16)).drop_last());
        assert(b =~= b.push(hex_digit(y % 16)).drop_last());
        assert(x / 16 < p) by (nonlinear_arith)
            requires
                x < 16 * p,
        ;
        assert(y / 16 < p) by (nonlinear_arith)
            requires
                y < 16 * p,
        ;
        lemma_hex_digits_injective(x / 16, y / 16, (n - 1) as nat);
    }
}

/// Distinct identifiers have distinct texts.
proof fn lemma_uuid_text_injective(x: u128, y: u128)
    requires
        uuid_text(x) == uuid_text(y),
    ensures
        x == y,
{
    lemma_hex_digits_len(x as nat, 32);
    lemma_hex_digits_len(y as nat, 32);
    let t = uuid_text(x);
    let hx = hex_digits(x as nat, 32);
    let hy = hex_digits(y as nat, 32);
    assert(hx =~= t.subrange(0, 8) + t.subrange(9, 13) + t.subrange(14, 18) + t.subrange(19, 23)
        + t.subrange(24, 36));
    assert(hy =~= t.subrange(0, 8) + t.subrange(9, 13) + t.subrange(14, 18) + t.subrange(19, 23)
        + t.subrange(24, 36));
    reveal_with_fuel(pow16, 33);
    assert(pow16(32) == 0x1_0000_0000_0000_0000_0000_0000_0000_0000);
    lemma_hex_digits_injective(x as nat, y as nat, 32);
}

/// Decoding the wire form of an envelope gives back that envelope.
pub proof fn law_envelope_round_trip(v: EnvelopeView)
    ensures
        decoded(encoded(v)) == Some(v),
{
    let w = encoded(v);
    assert(uuid_text(v.id) == w.id);
    let x = choose|x: u128| uuid_text(x) == w.id;
    lemma_uuid_text_injective(x, v.id);
}

/// Relies on uuid::Uuid::from_u128 and Uuid's Display impl, which writes the
/// hyphenated lowercase form.
#[verifier::external_body]
fn id_text(id: u128) -> (r: String)
    ensures
        r@ == uuid_text(id),
{
    uuid::Uuid::from_u128(id).to_string()
}

/// Relies on uuid::Uuid::parse_str, which accepts the hyphenated form (among
/// others), and Uuid::as_u128.
#[verifier::external_body]
fn parse_id(s: &str) -> (r: Option<u128>)
    ensures
        forall|x: u128| s@ == uuid_text(x) ==> r == Some(x),
{
    match uuid::Uuid::parse_str(s) {
        Ok(u) => Some(u.as_u128()),
        Err(_) => None,
    }
}

/// Holds of the 128-bit value of a version-7, RFC 4122 variant identifier.
pub open spec fn is_v7_id(id: u128) -> bool {
    &&& (id >> 76u128) & 0xfu128 == 7
    &&& (id >> 62u128) & 3u128 == 2
}

/// Relies on uuid::Uuid::now_v7 (and Uuid::as_u128): a fresh time-ordered
/// identifier whose version nibble is 7 and whose variant bits are `10`.
#[verifier::external_body]
fn fresh_v7_id() -> (r: u128)
    ensures
        is_v7_id(r),
{
    uuid::Uuid::now_v7().as_u128()
}

/// Relies on chrono::Utc::now and DateTime::timestamp: the current time in
/// whole seconds since the Unix epoch, which chrono reads from the system
/// clock and never reports as before the epoch.
#[verifier::external_body]
fn now_timestamp() -> (r: i64)
    ensures
        r >= 0,
{
    chrono::Utc::now().timestamp()
}

impl View for DispatchedEvent {
    type V = EnvelopeView;

    open spec fn view(&self) -> EnvelopeView {
        EnvelopeView {
            id: self.spec_id(),
            created_at: self.spec_created_at() as int,
            payload: self.spec_data()@,
            event_name: self.spec_name()@,
        }
    }
}

impl DispatchedEvent {
    pub closed spec fn spec_id(&self) -> u128 {
        self.id
    }

    pub closed spec fn spec_created_at(&self) -> i64 {
        self.created_at
    }

    pub closed spec fn spec_data(&self) -> String {
        self.data
    }

    pub closed spec fn spec_name(&self) -> String {
        self.name
    }

    /// Wraps a serialized payload under an event name, with a fresh
    /// identifier and the current time.
    pub fn new(data: String, name: String) -> (r: Self)
        ensures
            r@.payload == data@,
            r@.event_name == name@,
            r@.created_at >= 0,
            is_v7_id(r@.id),
    {
        let id = fresh_v7_id();
        let created_at = now_timestamp();
        DispatchedEvent { id, created_at, data, name }
    }

    /// Rebuilds an envelope from its four fields, keeping them as given
    /// (used for envelopes that were encoded elsewhere).
    pub fn from_parts(id: u128, created_at: i64, data: String, name: String) -> (r: Self)
        ensures
            r@ == (EnvelopeView {
                id,
                created_at: created_at as int,
                payload: data@,
                event_name: name@,
            }),
    {
        DispatchedEvent { id, created_at, data, name }
    }

    /// The identifier, as its 128-bit value.
    pub fn id(&self) -> (r: u128)
        ensures
            r == self@.id,
    {
        self.id
    }

    pub fn id_ref(&self) -> (r: &u128)
        ensures
            *r == self@.id,
    {
        &self.id
    }

    /// The creation time in seconds since the Unix epoch.
    pub fn created_at_ts(&self) -> (r: i64)
        ensures
            r as int == self@.created_at,
    {
        self.created_at
    }

    pub fn name(&self) -> (r: String)
        ensures
            r@ == self@.event_name,
    {
        self.name.clone()
    }

    pub fn name_ref(&self) -> (r: &str)
        ensures
            r@ == self@.event_name,
    {
        self.name.as_str()
    }

    pub fn data(&self) -> (r: String)
        ensures
            r@ == self@.payload,
    {
        self.data.clone()
    }

    pub fn data_ref(&self) -> (r: &str)
        ensures
            r@ == self@.payload,
    {
        self.data.as_str()
    }

    /// The wire form of this envelope.
    pub fn to_wire(&self) -> (r: WireEnvelope)
        ensures
            r@ == encoded(self@),
    {
        WireEnvelope {
            id: id_text(self.id),
            created_at: self.created_at,
            payload: self.data.clone(),
            event_name: self.name.clone(),
        }
    }

    /// The envelope that a wire form describes, keeping its identifier and
    /// timestamp. Nothing where the identifier text is not an identifier; an
    /// identifier in the hyphenated lowercase form is always accepted.
    pub fn from_wire(w: WireEnvelope) -> (r: Option<DispatchedEvent>)
        ensures
            decoded(w@) is Some ==> r is Some && r.unwrap()@ == decoded(w@).unwrap(),
            r is Some ==> r.unwrap()@.created_at == w@.created_at && r.unwrap()@.payload
                == w@.payload && r.unwrap()@.event_name == w@.event_name,
    {
        match parse_id(w.id.as_str()) {
            Some(id) => {
                proof {
                    if decoded(w@) is Some {
                        let x = choose|x: u128| uuid_text(x) == w@.id;
                        assert(id == x);
                    }
                }
                Some(DispatchedEvent::from_parts(id, w.created_at, w.payload, w.event_name))
            },
            None => None,
        }
    }
}

} // verus!
