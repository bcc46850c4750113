//! The integrity token of a request: the request's fields and the shared
//! secret, ordered by field name, their values joined and digested.
//!
//! The secret is one field among the others and the digest is a plain hash of
//! the joined values. That is what the parties to this protocol compute; it is
//! weaker than a keyed hash, and a caller must not let a request echo a value
//! from which the secret could be read.

use sha2::{Digest, Sha256};
use vstd::prelude::*;

verus! {

/// The order of field names: `a` comes before `b` if `a` is a proper prefix
/// of `b`, or if at the first place where they differ `a` has the lesser
/// character. On strings this is the order of their UTF-8 bytes.
pub open spec fn lex_less(a: Seq<char>, b: Seq<char>) -> bool {
    exists|k: int| #[trigger] differ_at(a, b, k)
}

/// Whether `a` and `b` agree before place `k` and `a` is the lesser there:
/// it ends at `k` and `b` does not, or it has the lesser character.
pub open spec fn differ_at(a: Seq<char>, b: Seq<char>, k: int) -> bool {
    &&& 0 <= k <= a.len()
    &&& k < b.len()
    &&& forall|j: int| 0 <= j < k ==> a[j] == b[j]
    &&& (k == a.len() || (a[k] as int) < (b[k] as int))
}

/// No name comes before itself, and of two names at most one comes first.
pub proof fn lemma_lex_asymmetric(a: Seq<char>, b: Seq<char>)
    requires
        lex_less(a, b),
    ensures
        !lex_less(b, a),
        a != b,
{
    let k = choose|k: int| differ_at(a, b, k);
    if lex_less(b, a) {
        let m = choose|m: int| differ_at(b, a, m);
        if k < m {
            assert(b[k] == a[k]);
        } else if m < k {
            assert(a[m] == b[m]);
        }
    }
}

/// The order of names is transitive.
pub proof fn lemma_lex_transitive(a: Seq<char>, b: Seq<char>, c: Seq<char>)
    requires
        lex_less(a, b),
        lex_less(b, c),
    ensures
        lex_less(a, c),
{
    let k = choose|k: int| differ_at(a, b, k);
    let m = choose|m: int| differ_at(b, c, m);
    let n = if k <= m {
        k
    } else {
        m
    };
    assert forall|j: int| 0 <= j < n implies a[j] == c[j] by {
        assert(a[j] == b[j]);
        assert(b[j] == c[j]);
    }
    if m < k {
        assert(a[m] == b[m]);
    }
    assert(differ_at(a, c, n));
}

/// How two names stand to each other.
#[derive(Clone, Copy, Debug, PartialEq, Eq, Structural)]
pub enum NameOrder {
    Before,
    Same,
    After,
}

/// Compares two names.
pub fn compare_names(a: &str, b: &str) -> (order: NameOrder)
    ensures
        order == NameOrder::Before <==> lex_less(a@, b@),
        order == NameOrder::Same <==> a@ == b@,
        order == NameOrder::After <==> lex_less(b@, a@),
{
    let a_len = a.unicode_len();
    let b_len = b.unicode_len();
    let mut i: usize = 0;
    while i < a_len && i < b_len
        invariant
            i <= a_len,
            i <= b_len,
            a_len == a@.len(),
            b_len == b@.len(),
            forall|j: int| 0 <= j < i ==> a@[j] == b@[j],
        decreases a_len - i,
    {
        let x = a.get_char(i);
        let y = b.get_char(i);
        if x < y {
            proof {
                assert(differ_at(a@, b@, i as int));
                lemma_lex_asymmetric(a@, b@);
            }
            return NameOrder::Before;
        }
        if y < x {
            proof {
                assert(differ_at(b@, a@, i as int));
                lemma_lex_asymmetric(b@, a@);
            }
            return NameOrder::After;
        }
        i = i + 1;
    }
    if a_len < b_len {
        proof {
            assert(differ_at(a@, b@, i as int));
            lemma_lex_asymmetric(a@, b@);
        }
        NameOrder::Before
    } else if b_len < a_len {
        proof {
            assert(differ_at(b@, a@, i as int));
            lemma_lex_asymmetric(b@, a@);
        }
        NameOrder::After
    } else {
        proof {
            assert(a@ =~= b@);
            if lex_less(a@, b@) {
                lemma_lex_asymmetric(a@, b@);
            }
            if lex_less(b@, a@) {
                lemma_lex_asymmetric(b@, a@);
            }
        }
        NameOrder::Same
    }
}

/// A named value of a request.
pub struct FieldView {
    pub name: Seq<char>,
    pub value: Seq<char>,
}

/// Whether the names of `fields` stand in strictly ascending order.
pub open spec fn ascending(fields: Seq<FieldView>) -> bool {
    forall|i: int, j: int|
        0 <= i < j < fields.len() ==> lex_less((#[trigger] fields[i]).name, (#[trigger] fields[j]).name)
}

/// Whether `i` is the place of `name` among `fields`: the names before it
/// come before `name`, and those from it on do not.
pub open spec fn is_slot(fields: Seq<FieldView>, name: Seq<char>, i: int) -> bool {
    &&& 0 <= i <= fields.len()
    &&& forall|j: int| 0 <= j < i ==> lex_less((#[trigger] fields[j]).name, name)
    &&& forall|j: int| i <= j < fields.len() ==> !lex_less((#[trigger] fields[j]).name, name)
}

/// The place of `name` among `fields`.
pub open spec fn slot(fields: Seq<FieldView>, name: Seq<char>) -> int {
    choose|i: int| is_slot(fields, name, i)
}

/// `fields` with `value` under `name`: in place of the value that `name` had,
/// or, where it had none, put in at the place that keeps the names ascending.
pub open spec fn with_field(fields: Seq<FieldView>, name: Seq<char>, value: Seq<char>) -> Seq<
    FieldView,
> {
    let i = slot(fields, name);
    if i < fields.len() && fields[i].name == name {
        fields.update(i, FieldView { name, value })
    } else {
        fields.insert(i, FieldView { name, value })
    }
}

/// The values of `fields` joined in the order in which they stand.
pub open spec fn joined_values(fields: Seq<FieldView>) -> Seq<char>
    decreases fields.len(),
{
    if fields.len() == 0 {
        Seq::empty()
    } else {
        joined_values(fields.drop_last()) + fields.last().value
    }
}

/// A name has one place only.
pub proof fn lemma_slot(fields: Seq<FieldView>, name: Seq<char>, i: int)
    requires
        is_slot(fields, name, i),
    ensures
        slot(fields, name) == i,
{
    let chosen = slot(fields, name);
    assert(is_slot(fields, name, chosen));
    if chosen < i {
        assert(lex_less(fields[chosen].name, name));
    } else if i < chosen {
        assert(lex_less(fields[i].name, name));
    }
}

/// Putting a field in keeps the names ascending.
pub proof fn lemma_with_field_ascending(fields: Seq<FieldView>, name: Seq<char>, value: Seq<char>)
    requires
        ascending(fields),
        exists|i: int| is_slot(fields, name, i),
    ensures
        ascending(with_field(fields, name, value)),
{
    let i = slot(fields, name);
    assert(is_slot(fields, name, i));
    let after = with_field(fields, name, value);
    if i < fields.len() && fields[i].name == name {
        assert forall|a: int, b: int| 0 <= a < b < after.len() implies lex_less(
            (#[trigger] after[a]).name,
            (#[trigger] after[b]).name,
        ) by {
            assert(after[a].name == fields[a].name);
            assert(after[b].name == fields[b].name);
        }
    } else {
        assert forall|a: int, b: int| 0 <= a < b < after.len() implies lex_less(
            (#[trigger] after[a]).name,
            (#[trigger] after[b]).name,
        ) by {
            if b < i {
                assert(after[a] == fields[a] && after[b] == fields[b]);
            } else if b == i {
                assert(after[a] == fields[a]);
            } else if a < i {
                assert(after[a] == fields[a] && after[b] == fields[b - 1]);
            } else if a > i {
                assert(after[a] == fields[a - 1] && after[b] == fields[b - 1]);
            } else {
                // `name` stands at `a`; it is not after the name that followed it
                assert(after[b] == fields[b - 1]);
                lemma_name_before_rest(fields, name, i, b - 1);
            }
        }
    }
}

/// A new name comes before every name from its place on.
proof fn lemma_name_before_rest(fields: Seq<FieldView>, name: Seq<char>, i: int, j: int)
    requires
        ascending(fields),
        is_slot(fields, name, i),
        i <= j < fields.len(),
        fields[i].name != name,
    ensures
        lex_less(name, fields[j].name),
{
    lemma_lex_total(fields[i].name, name);
    if i < j {
        assert(lex_less(fields[i].name, fields[j].name));
        lemma_lex_transitive(name, fields[i].name, fields[j].name);
    }
}

/// Of two different names one comes before the other.
pub proof fn lemma_lex_total(a: Seq<char>, b: Seq<char>)
    ensures
        a == b || lex_less(a, b) || lex_less(b, a),
    decreases a.len(),
{
    if a =~= b {
    } else if a.len() == 0 {
        assert(differ_at(a, b, 0));
    } else if b.len() == 0 {
        assert(differ_at(b, a, 0));
    } else if (a[0] as int) < (b[0] as int) {
        assert(differ_at(a, b, 0));
    } else if (b[0] as int) < (a[0] as int) {
        assert(differ_at(b, a, 0));
    } else {
        let x = a.drop_first();
        let y = b.drop_first();
        lemma_lex_total(x, y);
        if x == y {
            assert(a.len() == x.len() + 1 && b.len() == y.len() + 1);
            assert forall|j: int| 0 <= j < a.len() implies a[j] == b[j] by {
                if j > 0 {
                    assert(a[j] == x[j - 1] && b[j] == y[j - 1]);
                }
            }
            assert(a =~= b);
        } else if lex_less(x, y) {
            let k = choose|k: int| differ_at(x, y, k);
            assert forall|j: int| 0 <= j < k + 1 implies a[j] == b[j] by {
                if j > 0 {
                    assert(x[j - 1] == y[j - 1]);
                }
            }
            if k < x.len() {
                assert(x[k] == a[k + 1] && y[k] == b[k + 1]);
            }
            assert(differ_at(a, b, k + 1));
        } else {
            let k = choose|k: int| differ_at(y, x, k);
            assert forall|j: int| 0 <= j < k + 1 implies b[j] == a[j] by {
                if j > 0 {
                    assert(y[j - 1] == x[j - 1]);
                }
            }
            if k < y.len() {
                assert(y[k] == b[k + 1] && x[k] == a[k + 1]);
            }
            assert(differ_at(b, a, k + 1));
        }
    }
}

/// A value that changes changes the text it stands in, whatever stands
/// before and after it.
pub proof fn lemma_changed_part(before: Seq<char>, x: Seq<char>, y: Seq<char>, after: Seq<char>)
    requires
        x != y,
    ensures
        before + x + after != before + y + after,
{
    let left = before + x + after;
    let right = before + y + after;
    if x.len() == y.len() {
        if forall|i: int| 0 <= i < x.len() ==> x[i] == y[i] {
            assert(x =~= y);
        }
        let i = choose|i: int| 0 <= i < x.len() && x[i] != y[i];
        assert(left[before.len() + i] == x[i]);
        assert(right[before.len() + i] == y[i]);
    } else {
        assert(left.len() != right.len());
    }
}

/// The joined values are those before a field, the field's own, and those
/// after it.
pub proof fn lemma_joined_split(fields: Seq<FieldView>, i: int)
    requires
        0 <= i < fields.len(),
    ensures
        joined_values(fields) == joined_values(fields.take(i)) + fields[i].value + joined_values(
            fields.skip(i + 1),
        ),
    decreases fields.len(),
{
    let front = fields.drop_last();
    let rest = fields.skip(i + 1);
    if i == fields.len() - 1 {
        assert(fields.take(i) =~= front);
        assert(rest =~= Seq::<FieldView>::empty());
        assert(joined_values(fields) =~= joined_values(front) + fields[i].value + joined_values(
            rest,
        ));
    } else {
        lemma_joined_split(front, i);
        assert(front.take(i) =~= fields.take(i));
        assert(rest.drop_last() =~= front.skip(i + 1));
        assert(rest.last() == fields.last());
        assert(joined_values(fields) =~= joined_values(fields.take(i)) + fields[i].value
            + joined_values(rest));
    }
}

/// Changing the value of any one field changes the text that the token is
/// the digest of. So a token that matched before matches afterwards only if
/// the digest of the new text happens to be that of the old.
pub proof fn lemma_changed_field_alters_text(fields: Seq<FieldView>, i: int, value: Seq<char>)
    requires
        0 <= i < fields.len(),
        value != fields[i].value,
    ensures
        joined_values(fields.update(i, FieldView { name: fields[i].name, value })) != joined_values(
            fields,
        ),
{
    let changed = fields.update(i, FieldView { name: fields[i].name, value });
    lemma_joined_split(fields, i);
    lemma_joined_split(changed, i);
    assert(changed.take(i) =~= fields.take(i));
    assert(changed.skip(i + 1) =~= fields.skip(i + 1));
    lemma_changed_part(
        joined_values(fields.take(i)),
        fields[i].value,
        value,
        joined_values(fields.skip(i + 1)),
    );
}

/// The SHA-256 digest of the UTF-8 bytes of `text`, written as 64 lowercase
/// hexadecimal digits.
pub uninterp spec fn sha256_hex(text: Seq<char>) -> Seq<char>;

/// Digests `text`: `sha2::Sha256` through `Digest::new`, `update` and
/// `finalize`, the 32 bytes then written with `{:x}`. The result is a
/// function of the text alone; the contract names it and says no more.
#[verifier::external_body]
fn digest_hex(text: &str) -> (hex: String)
    ensures
        hex@ == sha256_hex(text@),
{
    let mut hasher: Sha256 = Digest::new();
    hasher.update(text);
    let hash = hasher.finalize();
    format!("{:x}", hash)
}

/// Why a request was not accepted as genuine.
#[derive(Clone, Copy, Debug, PartialEq, Eq, Structural)]
pub enum TokenError {
    /// The token that came with the request is not the token over its fields.
    TokenMismatch,
}

/// One field of a request as it is held for the token.
struct Field {
    name: String,
    value: String,
}

impl View for Field {
    type V = FieldView;

    closed spec fn view(&self) -> FieldView {
        FieldView { name: self.name@, value: self.value@ }
    }
}

/// The fields that go into a token, each name once, in ascending order of
/// the names whatever the order in which they were put in.
pub struct TokenFields {
    fields: Vec<Field>,
}

impl View for TokenFields {
    type V = Seq<FieldView>;

    closed spec fn view(&self) -> Seq<FieldView> {
        self.fields@.map_values(|f: Field| f@)
    }
}

/// The token over `fields`: the digest of their joined values.
pub open spec fn token_of(fields: Seq<FieldView>) -> Seq<char> {
    sha256_hex(joined_values(fields))
}

impl TokenFields {
    /// What holds of the fields at all times: their names ascend.
    #[verifier::type_invariant]
    pub open spec fn well_formed(self) -> bool {
        ascending(self@)
    }

    /// No fields.
    pub fn new() -> (fields: Self)
        ensures
            fields@ == Seq::<FieldView>::empty(),
            ascending(fields@),
    {
        let fields = TokenFields { fields: Vec::new() };
        assert(fields@ =~= Seq::<FieldView>::empty());
        fields
    }

    /// Puts `value` under `name`, in place of the value that `name` had if it
    /// had one.
    pub fn insert(&mut self, name: &str, value: String)
        ensures
            ascending(final(self)@),
            final(self)@ == with_field(old(self)@, name@, value@),
    {
        proof {
            use_type_invariant(&*self);
        }
        let mut i: usize = 0;
        let mut found = false;
        while i < self.fields.len()
            invariant_except_break
                !found,
            invariant
                i <= self.fields.len(),
                *self == *old(self),
                forall|j: int| 0 <= j < i ==> lex_less((#[trigger] self@[j]).name, name@),
            ensures
                i <= self.fields.len(),
                *self == *old(self),
                forall|j: int| 0 <= j < i ==> lex_less((#[trigger] self@[j]).name, name@),
                found ==> i < self.fields.len() && self@[i as int].name == name@,
                !found && i < self.fields.len() ==> lex_less(name@, self@[i as int].name),
            decreases self.fields.len() - i,
        {
            match compare_names(self.fields[i].name.as_str(), name) {
                NameOrder::Before => {
                    i = i + 1;
                },
                NameOrder::Same => {
                    found = true;
                    break ;
                },
                NameOrder::After => {
                    break ;
                },
            }
        }
        proof {
            let before = self@;
            assert forall|j: int| i <= j < before.len() implies !lex_less(
                (#[trigger] before[j]).name,
                name@,
            ) by {
                if lex_less(before[j].name, name@) {
                    if found {
                        if i < j {
                            assert(lex_less(before[i as int].name, before[j].name));
                        }
                        lemma_lex_asymmetric(before[j].name, name@);
                    } else {
                        if i < j {
                            assert(lex_less(before[i as int].name, before[j].name));
                            lemma_lex_transitive(name@, before[i as int].name, before[j].name);
                        }
                        lemma_lex_asymmetric(before[j].name, name@);
                    }
                }
            }
            assert(is_slot(before, name@, i as int));
            lemma_slot(before, name@, i as int);
            lemma_with_field_ascending(before, name@, value@);
        }
        let field = Field { name: name.to_owned(), value };
        let ghost shown = field@;
        let mut fields: Vec<Field> = Vec::new();
        assert(fields@.map_values(|f: Field| f@) =~= Seq::<FieldView>::empty());
        std::mem::swap(&mut fields, &mut self.fields);
        if found {
            fields.set(i, field);
            assert(fields@.map_values(|f: Field| f@) =~= old(self)@.update(i as int, shown));
        } else {
            fields.insert(i, field);
            assert(fields@.map_values(|f: Field| f@) =~= old(self)@.insert(i as int, shown));
        }
        self.fields = fields;
    }

    /// The values joined in ascending order of their names.
    pub fn joined(&self) -> (text: String)
        ensures
            text@ == joined_values(self@),
    {
        let mut text = String::new();
        let mut i: usize = 0;
        while i < self.fields.len()
            invariant
                i <= self.fields.len(),
                text@ == joined_values(self@.take(i as int)),
            decreases self.fields.len() - i,
        {
            proof {
                assert(self@.take(i + 1).drop_last() =~= self@.take(i as int));
            }
            text.append(self.fields[i].value.as_str());
            i = i + 1;
        }
        assert(self@.take(i as int) =~= self@);
        text
    }

    /// The token over these fields.
    pub fn token(&self) -> (token: String)
        ensures
            token@ == token_of(self@),
    {
        let text = self.joined();
        digest_hex(text.as_str())
    }

    /// Whether `candidate` is the token over these fields.
    pub fn validate(&self, candidate: &String) -> (checked: Result<(), TokenError>)
        ensures
            checked is Ok <==> candidate@ == token_of(self@),
            checked is Err ==> checked == Err::<(), TokenError>(TokenError::TokenMismatch),
    {
        let expected = self.token();
        if expected == *candidate {
            Ok(())
        } else {
            Err(TokenError::TokenMismatch)
        }
    }
}

} // verus!
