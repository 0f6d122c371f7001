//! One record and its fixed-width binary codec.
use crate::layout::{EMAIL_OFFSET, EMAIL_SIZE, ROW_SIZE, USERNAME_OFFSET, USERNAME_SIZE};
use vstd::prelude::*;
use vstd::string::StrSliceExecFns;
use vstd::string::StringSliceAdditionalSpecFns;

verus! {

/// `s` without its trailing zero bytes.
pub open spec fn trim_zeros(s: Seq<u8>) -> Seq<u8>
    decreases s.len(),
{
    if s.len() > 0 && s.last() == 0 {
        trim_zeros(s.drop_last())
    } else {
        s
    }
}

/// `s` left-aligned in a field of `width` bytes, the rest zero.
pub open spec fn pad(s: Seq<u8>, width: nat) -> Seq<u8> {
    s + Seq::new((width - s.len()) as nat, |i: int| 0u8)
}

/// The identifier as two big-endian bytes.
pub open spec fn id_bytes(id: u16) -> Seq<u8> {
    seq![(id / 256) as u8, (id % 256) as u8]
}

/// The encoded form of a row's model (identifier, username field, email field).
pub open spec fn encode_spec(v: (u16, Seq<u8>, Seq<u8>)) -> Seq<u8> {
    id_bytes(v.0) + v.1 + v.2
}

/// The row model read back from an encoded row.
pub open spec fn decode_spec(b: Seq<u8>) -> (u16, Seq<u8>, Seq<u8>) {
    (
        (b[0] as int * 256 + b[1] as int) as u16,
        b.subrange(USERNAME_OFFSET as int, EMAIL_OFFSET as int),
        b.subrange(EMAIL_OFFSET as int, ROW_SIZE as int),
    )
}

/// The model of a row made from an identifier and two texts that fit.
pub open spec fn row_of(id: u16, username: Seq<u8>, email: Seq<u8>) -> (u16, Seq<u8>, Seq<u8>) {
    (id, pad(username, USERNAME_SIZE as nat), pad(email, EMAIL_SIZE as nat))
}

/// Why a row could not be made.
#[derive(Debug, Clone, Copy, PartialEq, Eq, Structural)]
pub enum RowError {
    UsernameTooLong,
    EmailTooLong,
}

/// A record: an identifier and two zero-padded text fields.
#[derive(Debug)]
pub struct Row {
    id: u16,
    username: Vec<u8>,
    email: Vec<u8>,
}

impl View for Row {
    type V = (u16, Seq<u8>, Seq<u8>);

    closed spec fn view(&self) -> (u16, Seq<u8>, Seq<u8>) {
        (self.id, self.username@, self.email@)
    }
}

/// Both text fields have their fixed widths.
pub open spec fn row_model_wf(v: (u16, Seq<u8>, Seq<u8>)) -> bool {
    v.1.len() == USERNAME_SIZE && v.2.len() == EMAIL_SIZE
}

impl PartialEq for Row {
    fn eq(&self, other: &Row) -> (r: bool) {
        self.id == other.id && bytes_equal(&self.username, &other.username) && bytes_equal(
            &self.email,
            &other.email,
        )
    }
}

impl vstd::std_specs::cmp::PartialEqSpecImpl for Row {
    open spec fn obeys_eq_spec() -> bool {
        true
    }

    open spec fn eq_spec(&self, other: &Row) -> bool {
        self@ == other@
    }
}

impl Default for Row {
    fn default() -> (r: Row)
        ensures
            r@ == row_of(0, Seq::empty(), Seq::empty()),
    {
        Row { id: 0, username: zeros(USERNAME_SIZE), email: zeros(EMAIL_SIZE) }
    }
}

fn bytes_equal(a: &Vec<u8>, b: &Vec<u8>) -> (r: bool)
    ensures
        r == (a@ == b@),
{
    if a.len() != b.len() {
        return false;
    }
    let mut i: usize = 0;
    while i < a.len()
        invariant
            a@.len() == b@.len(),
            i <= a@.len(),
            a@.subrange(0, i as int) == b@.subrange(0, i as int),
        decreases a@.len() - i,
    {
        if a[i] != b[i] {
            assert(a@[i as int] != b@[i as int]);
            return false;
        }
        assert(a@.subrange(0, i + 1) =~= a@.subrange(0, i as int).push(a@[i as int]));
        assert(b@.subrange(0, i + 1) =~= b@.subrange(0, i as int).push(b@[i as int]));
        i = i + 1;
    }
    assert(a@ =~= a@.subrange(0, i as int));
    assert(b@ =~= b@.subrange(0, i as int));
    true
}

/// `n` zero bytes.
pub fn zeros(n: usize) -> (r: Vec<u8>)
    ensures
        r@ == Seq::new(n as nat, |i: int| 0u8),
{
    let mut r: Vec<u8> = Vec::new();
    while r.len() < n
        invariant
            r@.len() <= n,
            r@ == Seq::new(r@.len(), |i: int| 0u8),
        decreases n - r@.len(),
    {
        r.push(0);
        assert(r@ =~= Seq::new(r@.len(), |i: int| 0u8));
    }
    r
}

/// Appends `src[start..end]` to `dst`.
pub fn push_range(dst: &mut Vec<u8>, src: &[u8], start: usize, end: usize)
    requires
        start <= end <= src@.len(),
    ensures
        final(dst)@ == old(dst)@ + src@.subrange(start as int, end as int),
{
    let mut i: usize = start;
    while i < end
        invariant
            start <= i <= end <= src@.len(),
            dst@ == old(dst)@ + src@.subrange(start as int, i as int),
        decreases end - i,
    {
        dst.push(src[i]);
        assert(src@.subrange(start as int, i + 1) =~= src@.subrange(start as int, i as int).push(
            src@[i as int],
        ));
        i = i + 1;
    }
}

/// `bytes` zero-padded to `width`.
fn padded(bytes: &Vec<u8>, width: usize) -> (r: Vec<u8>)
    requires
        bytes@.len() <= width,
    ensures
        r@ == pad(bytes@, width as nat),
{
    let mut r: Vec<u8> = Vec::new();
    push_range(&mut r, bytes.as_slice(), 0, bytes.len());
    assert(r@ =~= bytes@);
    while r.len() < width
        invariant
            bytes@.len() <= r@.len() <= width,
            r@ == pad(bytes@, r@.len()),
        decreases width - r@.len(),
    {
        r.push(0);
        assert(r@ =~= pad(bytes@, r@.len()));
    }
    r
}

/// Removing trailing zeros ignores the zero padding of a field.
pub proof fn lemma_trim_pad(s: Seq<u8>, width: nat)
    requires
        s.len() <= width,
    ensures
        trim_zeros(pad(s, width)) == trim_zeros(s),
    decreases width - s.len(),
{
    if width == s.len() {
        assert(pad(s, width) =~= s);
    } else {
        let w1 = (width - 1) as nat;
        assert(pad(s, width).drop_last() =~= pad(s, w1));
        lemma_trim_pad(s, w1);
    }
}

/// Encoding a row made from fitting texts and decoding the bytes gives the
/// same row back: the same identifier, and texts that are equal once the
/// trailing zero bytes are removed.
pub proof fn lemma_round_trip(id: u16, username: Seq<u8>, email: Seq<u8>)
    requires
        username.len() <= USERNAME_SIZE,
        email.len() <= EMAIL_SIZE,
    ensures
        decode_spec(encode_spec(row_of(id, username, email))) == row_of(id, username, email),
        decode_spec(encode_spec(row_of(id, username, email))).0 == id,
        trim_zeros(decode_spec(encode_spec(row_of(id, username, email))).1) == trim_zeros(
            username,
        ),
        trim_zeros(decode_spec(encode_spec(row_of(id, username, email))).2) == trim_zeros(email),
{
    lemma_decode_encode(row_of(id, username, email));
    lemma_trim_pad(username, USERNAME_SIZE as nat);
    lemma_trim_pad(email, EMAIL_SIZE as nat);
}

/// Decoding undoes encoding on every well-formed row model.
pub proof fn lemma_decode_encode(v: (u16, Seq<u8>, Seq<u8>))
    requires
        row_model_wf(v),
    ensures
        decode_spec(encode_spec(v)) == v,
{
    let b = encode_spec(v);
    assert(b.subrange(USERNAME_OFFSET as int, EMAIL_OFFSET as int) =~= v.1);
    assert(b.subrange(EMAIL_OFFSET as int, ROW_SIZE as int) =~= v.2);
    assert(b[0] == (v.0 / 256) as u8);
    assert(b[1] == (v.0 % 256) as u8);
}

impl Row {
    /// The well-formedness of a row: both fields have their fixed widths.
    pub open spec fn inv(&self) -> bool {
        row_model_wf(self@)
    }

    /// A row with the given identifier and texts, each zero-padded to its
    /// field's width; a text longer than its field is rejected.
    pub fn new(id: u16, username: &str, email: &str) -> (r: Result<Row, RowError>)
        ensures
            username.spec_bytes().len() > USERNAME_SIZE ==> r == Err::<Row, RowError>(
                RowError::UsernameTooLong,
            ),
            username.spec_bytes().len() <= USERNAME_SIZE && email.spec_bytes().len() > EMAIL_SIZE
                ==> r == Err::<Row, RowError>(RowError::EmailTooLong),
            username.spec_bytes().len() <= USERNAME_SIZE && email.spec_bytes().len() <= EMAIL_SIZE
                ==> r is Ok && r->Ok_0@ == row_of(id, username.spec_bytes(), email.spec_bytes()),
            r is Ok ==> r->Ok_0.inv(),
    {
        let u = username.as_bytes_vec();
        let e = email.as_bytes_vec();
        if u.len() > USERNAME_SIZE {
            return Err(RowError::UsernameTooLong);
        }
        if e.len() > EMAIL_SIZE {
            return Err(RowError::EmailTooLong);
        }
        Ok(Row { id, username: padded(&u, USERNAME_SIZE), email: padded(&e, EMAIL_SIZE) })
    }

    /// The identifier.
    pub fn id(&self) -> (r: u16)
        ensures
            r == self@.0,
    {
        self.id
    }

    /// The username text, without its zero padding.
    pub fn username(&self) -> (r: Vec<u8>)
        ensures
            r@ == trim_zeros(self@.1),
    {
        trimmed(&self.username)
    }

    /// The email text, without its zero padding.
    pub fn email(&self) -> (r: Vec<u8>)
        ensures
            r@ == trim_zeros(self@.2),
    {
        trimmed(&self.email)
    }

    /// The row's bytes: the identifier big-endian, then both fields.
    pub fn encode(&self) -> (r: Vec<u8>)
        requires
            self.inv(),
        ensures
            r@ == encode_spec(self@),
            r@.len() == ROW_SIZE,
    {
        let mut r: Vec<u8> = Vec::new();
        r.push((self.id / 256) as u8);
        r.push((self.id % 256) as u8);
        push_range(&mut r, self.username.as_slice(), 0, self.username.len());
        push_range(&mut r, self.email.as_slice(), 0, self.email.len());
        assert(self.username@.subrange(0, self.username@.len() as int) =~= self.username@);
        assert(self.email@.subrange(0, self.email@.len() as int) =~= self.email@);
        assert(r@ =~= encode_spec(self@));
        r
    }

    /// The row held in `bytes[start..start + ROW_SIZE]`.
    pub fn decode(bytes: &[u8], start: usize) -> (r: Row)
        requires
            start + ROW_SIZE <= bytes@.len(),
        ensures
            r@ == decode_spec(bytes@.subrange(start as int, start + ROW_SIZE)),
            r.inv(),
    {
        let ghost b = bytes@.subrange(start as int, start + ROW_SIZE);
        let hi = bytes[start] as u16;
        let lo = bytes[start + 1] as u16;
        let id: u16 = hi * 256 + lo;
        let mut username: Vec<u8> = Vec::new();
        push_range(&mut username, bytes, start + USERNAME_OFFSET, start + EMAIL_OFFSET);
        let mut email: Vec<u8> = Vec::new();
        push_range(&mut email, bytes, start + EMAIL_OFFSET, start + ROW_SIZE);
        assert(username@ =~= b.subrange(USERNAME_OFFSET as int, EMAIL_OFFSET as int));
        assert(email@ =~= b.subrange(EMAIL_OFFSET as int, ROW_SIZE as int));
        Row { id, username, email }
    }
}

/// `v` without its trailing zero bytes.
fn trimmed(v: &Vec<u8>) -> (r: Vec<u8>)
    ensures
        r@ == trim_zeros(v@),
{
    let mut n: usize = v.len();
    assert(v@.subrange(0, n as int) =~= v@);
    while n > 0 && v[n - 1] == 0
        invariant
            n <= v@.len(),
            trim_zeros(v@.subrange(0, n as int)) == trim_zeros(v@),
        decreases n,
    {
        assert(v@.subrange(0, n as int).drop_last() =~= v@.subrange(0, n - 1));
        n = n - 1;
    }
    let mut r: Vec<u8> = Vec::new();
    push_range(&mut r, v.as_slice(), 0, n);
    r
}

} // verus!
