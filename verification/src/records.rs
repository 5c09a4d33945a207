//! The two record kinds and their JSON shape: a client record, keyed by id,
//! and a commission record with its legacy-tolerant reader. Writing a record
//! and reading its text back returns an equal record; the reader of
//! commissions additionally accepts older files holding a decimal dollar
//! `price` in place of integer `price_cents`.

use vstd::prelude::*;
use crate::json::{obj_to_text, parse_obj_text, sp_obj, JsonMember, JsonObj, JsonScalar, JsonVal,
    MemberV, ScalarV, ValV};
use crate::json_rt::{lemma_obj_round_trip, wf_members, wf_scalar, wf_val};
use crate::num::{dec_lexeme_cents, dec_lexeme_to_cents, i64_rep, i64_to_string, int_lexeme_val,
    is_dec_lexeme, is_int_lexeme, lemma_i64_rep, parse_int_lexeme};
use crate::strutil::str_eq;

verus! {

/// A client record.
pub struct Client {
    pub id: String,
    pub name: String,
    pub email: String,
    pub contact: String,
    pub profile_image: Option<String>,
    pub notes: Option<String>,
    pub created_at: String,
    pub updated_at: String,
}

/// The mathematical value of a client record.
pub ghost struct ClientView {
    pub id: Seq<char>,
    pub name: Seq<char>,
    pub email: Seq<char>,
    pub contact: Seq<char>,
    pub profile_image: Option<Seq<char>>,
    pub notes: Option<Seq<char>>,
    pub created_at: Seq<char>,
    pub updated_at: Seq<char>,
}

impl View for Client {
    type V = ClientView;

    open spec fn view(&self) -> ClientView {
        ClientView {
            id: self.id@,
            name: self.name@,
            email: self.email@,
            contact: self.contact@,
            profile_image: match self.profile_image {
                Some(s) => Some(s@),
                None => None,
            },
            notes: match self.notes {
                Some(s) => Some(s@),
                None => None,
            },
            created_at: self.created_at@,
            updated_at: self.updated_at@,
        }
    }
}

/// A commission record.
pub struct Commission {
    pub id: String,
    pub client_id: String,
    pub client_name: String,
    pub title: String,
    pub description: String,
    pub price_cents: i64,
    pub payment_status: String,
    pub status: String,
    pub created_at: String,
    pub updated_at: String,
    pub images: Vec<String>,
}

/// The mathematical value of a commission record.
pub ghost struct CommissionView {
    pub id: Seq<char>,
    pub client_id: Seq<char>,
    pub client_name: Seq<char>,
    pub title: Seq<char>,
    pub description: Seq<char>,
    pub price_cents: int,
    pub payment_status: Seq<char>,
    pub status: Seq<char>,
    pub created_at: Seq<char>,
    pub updated_at: Seq<char>,
    pub images: Seq<Seq<char>>,
}

impl View for Commission {
    type V = CommissionView;

    open spec fn view(&self) -> CommissionView {
        CommissionView {
            id: self.id@,
            client_id: self.client_id@,
            client_name: self.client_name@,
            title: self.title@,
            description: self.description@,
            price_cents: self.price_cents as int,
            payment_status: self.payment_status@,
            status: self.status@,
            created_at: self.created_at@,
            updated_at: self.updated_at@,
            images: self.images@.map_values(|s: String| s@),
        }
    }
}

/// A string value member.
pub open spec fn str_val(s: Seq<char>) -> ValV {
    ValV::Scalar(ScalarV::Str(s))
}

/// An optional string value member: absent values are written as null.
pub open spec fn opt_val(o: Option<Seq<char>>) -> ValV {
    match o {
        Some(s) => ValV::Scalar(ScalarV::Str(s)),
        None => ValV::Scalar(ScalarV::Null),
    }
}

/// The members of a written client record, in this fixed order.
pub open spec fn client_members(c: ClientView) -> Seq<MemberV> {
    seq![
        MemberV { key: "id"@, val: str_val(c.id) },
        MemberV { key: "name"@, val: str_val(c.name) },
        MemberV { key: "email"@, val: str_val(c.email) },
        MemberV { key: "contact"@, val: str_val(c.contact) },
        MemberV { key: "profile_image"@, val: opt_val(c.profile_image) },
        MemberV { key: "notes"@, val: opt_val(c.notes) },
        MemberV { key: "created_at"@, val: str_val(c.created_at) },
        MemberV { key: "updated_at"@, val: str_val(c.updated_at) },
    ]
}

/// The members of a written commission record, in this fixed order.
pub open spec fn commission_members(m: CommissionView) -> Seq<MemberV> {
    seq![
        MemberV { key: "id"@, val: str_val(m.id) },
        MemberV { key: "client_id"@, val: str_val(m.client_id) },
        MemberV { key: "client_name"@, val: str_val(m.client_name) },
        MemberV { key: "title"@, val: str_val(m.title) },
        MemberV { key: "description"@, val: str_val(m.description) },
        MemberV { key: "price_cents"@, val: ValV::Scalar(ScalarV::Num(i64_rep(m.price_cents))) },
        MemberV { key: "payment_status"@, val: str_val(m.payment_status) },
        MemberV { key: "status"@, val: str_val(m.status) },
        MemberV { key: "created_at"@, val: str_val(m.created_at) },
        MemberV { key: "updated_at"@, val: str_val(m.updated_at) },
        MemberV {
            key: "images"@,
            val: ValV::Arr(m.images.map_values(|s: Seq<char>| ScalarV::Str(s))),
        },
    ]
}

/// The written text of a client record.
pub open spec fn client_json_text(c: ClientView) -> Seq<char> {
    crate::json::obj_text(client_members(c))
}

/// The written text of a commission record.
pub open spec fn commission_json_text(m: CommissionView) -> Seq<char> {
    crate::json::obj_text(commission_members(m))
}

/// The first member of `ms` with the given key, if any.
pub open spec fn obj_get_v(ms: Seq<MemberV>, key: Seq<char>) -> Option<ValV>
    decreases ms.len(),
{
    if ms.len() == 0 {
        None
    } else if ms[0].key == key {
        Some(ms[0].val)
    } else {
        obj_get_v(ms.skip(1), key)
    }
}

/// A required string field.
pub open spec fn str_field(ms: Seq<MemberV>, key: Seq<char>) -> Option<Seq<char>> {
    match obj_get_v(ms, key) {
        Some(v) => match v {
            ValV::Scalar(ScalarV::Str(s)) => Some(s),
            _ => None,
        },
        None => None,
    }
}

/// An optional string field: absent or null is an absent value; any other
/// non-string value is a type error.
pub open spec fn opt_str_field(ms: Seq<MemberV>, key: Seq<char>) -> Option<Option<Seq<char>>> {
    match obj_get_v(ms, key) {
        None => Some(None),
        Some(v) => match v {
            ValV::Scalar(ScalarV::Str(s)) => Some(Some(s)),
            ValV::Scalar(ScalarV::Null) => Some(None),
            _ => None,
        },
    }
}

/// A string field with a fallback for an absent or differently typed value.
pub open spec fn str_field_or(ms: Seq<MemberV>, key: Seq<char>, dflt: Seq<char>) -> Seq<char> {
    match str_field(ms, key) {
        Some(s) => s,
        None => dflt,
    }
}

/// The client a parsed object denotes: every string field must be present
/// as a string; the two optional fields may be absent or null.
pub open spec fn spec_parse_client(ms: Seq<MemberV>) -> Option<ClientView> {
    if str_field(ms, "id"@) is Some && str_field(ms, "name"@) is Some && str_field(ms, "email"@)
        is Some && str_field(ms, "contact"@) is Some && opt_str_field(ms, "profile_image"@)
        is Some && opt_str_field(ms, "notes"@) is Some && str_field(ms, "created_at"@) is Some
        && str_field(ms, "updated_at"@) is Some {
        Some(
            ClientView {
                id: str_field(ms, "id"@)->Some_0,
                name: str_field(ms, "name"@)->Some_0,
                email: str_field(ms, "email"@)->Some_0,
                contact: str_field(ms, "contact"@)->Some_0,
                profile_image: opt_str_field(ms, "profile_image"@)->Some_0,
                notes: opt_str_field(ms, "notes"@)->Some_0,
                created_at: str_field(ms, "created_at"@)->Some_0,
                updated_at: str_field(ms, "updated_at"@)->Some_0,
            },
        )
    } else {
        None
    }
}

/// The client a record text denotes.
pub open spec fn spec_parse_client_text(t: Seq<char>) -> Option<ClientView> {
    match sp_obj(t) {
        Some(ms) => spec_parse_client(ms),
        None => None,
    }
}

/// The price in cents a parsed commission object denotes: an integer
/// `price_cents` member when it is one and fits an `i64`; failing that, a
/// legacy decimal dollar `price` member, converted at a hundred cents to
/// the dollar, rounded half away from zero, when the cents fit an `i64`.
pub open spec fn spec_price_of(ms: Seq<MemberV>) -> Option<int> {
    let pc = obj_get_v(ms, "price_cents"@);
    if pc matches Some(ValV::Scalar(ScalarV::Num(l))) && is_int_lexeme(l) && i64::MIN
        <= int_lexeme_val(l) <= i64::MAX {
        Some(int_lexeme_val(pc->Some_0->Scalar_0->Num_0))
    } else {
        let p = obj_get_v(ms, "price"@);
        if p matches Some(ValV::Scalar(ScalarV::Num(l))) && is_dec_lexeme(l) && i64::MIN
            <= dec_lexeme_cents(l) <= i64::MAX {
            Some(dec_lexeme_cents(p->Some_0->Scalar_0->Num_0))
        } else {
            None
        }
    }
}

/// The string items of an array value, non-strings dropped.
pub open spec fn strs_of(a: Seq<ScalarV>) -> Seq<Seq<char>>
    decreases a.len(),
{
    if a.len() == 0 {
        Seq::empty()
    } else {
        match a[0] {
            ScalarV::Str(s) => seq![s] + strs_of(a.skip(1)),
            _ => strs_of(a.skip(1)),
        }
    }
}

/// The image list of a parsed commission object: the string items of an
/// `images` array, or empty when the member is absent or not an array.
pub open spec fn images_of(ms: Seq<MemberV>) -> Seq<Seq<char>> {
    match obj_get_v(ms, "images"@) {
        Some(v) => match v {
            ValV::Arr(a) => strs_of(a),
            _ => Seq::empty(),
        },
        None => Seq::empty(),
    }
}

/// The commission a parsed object denotes. Only the price is required;
/// every other field falls back to a type-appropriate default, so an older
/// partial record still reads.
pub open spec fn spec_parse_commission(ms: Seq<MemberV>) -> Option<CommissionView> {
    match spec_price_of(ms) {
        None => None,
        Some(p) => Some(
            CommissionView {
                id: str_field_or(ms, "id"@, Seq::empty()),
                client_id: str_field_or(ms, "client_id"@, Seq::empty()),
                client_name: str_field_or(ms, "client_name"@, Seq::empty()),
                title: str_field_or(ms, "title"@, Seq::empty()),
                description: str_field_or(ms, "description"@, Seq::empty()),
                price_cents: p,
                payment_status: str_field_or(ms, "payment_status"@, "Not Paid"@),
                status: str_field_or(ms, "status"@, "pending"@),
                created_at: str_field_or(ms, "created_at"@, Seq::empty()),
                updated_at: str_field_or(ms, "updated_at"@, Seq::empty()),
                images: images_of(ms),
            },
        ),
    }
}

/// The commission a record text denotes.
pub open spec fn spec_parse_commission_text(t: Seq<char>) -> Option<CommissionView> {
    match sp_obj(t) {
        Some(ms) => spec_parse_commission(ms),
        None => None,
    }
}

/// Renders a client record as its JSON text.
pub fn client_to_json(c: &Client) -> (r: String)
    ensures
        r@ == client_json_text(c@),
{
    let mut members: Vec<JsonMember> = Vec::new();
    members.push(
        JsonMember { key: "id".to_owned(), val: JsonVal::Scalar(JsonScalar::Str(c.id.clone())) },
    );
    members.push(
        JsonMember {
            key: "name".to_owned(),
            val: JsonVal::Scalar(JsonScalar::Str(c.name.clone())),
        },
    );
    members.push(
        JsonMember {
            key: "email".to_owned(),
            val: JsonVal::Scalar(JsonScalar::Str(c.email.clone())),
        },
    );
    members.push(
        JsonMember {
            key: "contact".to_owned(),
            val: JsonVal::Scalar(JsonScalar::Str(c.contact.clone())),
        },
    );
    let pi = match &c.profile_image {
        Some(s) => JsonVal::Scalar(JsonScalar::Str(s.clone())),
        None => JsonVal::Scalar(JsonScalar::Null),
    };
    members.push(JsonMember { key: "profile_image".to_owned(), val: pi });
    let nt = match &c.notes {
        Some(s) => JsonVal::Scalar(JsonScalar::Str(s.clone())),
        None => JsonVal::Scalar(JsonScalar::Null),
    };
    members.push(JsonMember { key: "notes".to_owned(), val: nt });
    members.push(
        JsonMember {
            key: "created_at".to_owned(),
            val: JsonVal::Scalar(JsonScalar::Str(c.created_at.clone())),
        },
    );
    members.push(
        JsonMember {
            key: "updated_at".to_owned(),
            val: JsonVal::Scalar(JsonScalar::Str(c.updated_at.clone())),
        },
    );
    let o = JsonObj { members };
    assert(o@ =~= client_members(c@));
    obj_to_text(&o)
}

/// Renders a commission record as its JSON text.
pub fn commission_to_json(m: &Commission) -> (r: String)
    ensures
        r@ == commission_json_text(m@),
{
    let mut members: Vec<JsonMember> = Vec::new();
    members.push(
        JsonMember { key: "id".to_owned(), val: JsonVal::Scalar(JsonScalar::Str(m.id.clone())) },
    );
    members.push(
        JsonMember {
            key: "client_id".to_owned(),
            val: JsonVal::Scalar(JsonScalar::Str(m.client_id.clone())),
        },
    );
    members.push(
        JsonMember {
            key: "client_name".to_owned(),
            val: JsonVal::Scalar(JsonScalar::Str(m.client_name.clone())),
        },
    );
    members.push(
        JsonMember {
            key: "title".to_owned(),
            val: JsonVal::Scalar(JsonScalar::Str(m.title.clone())),
        },
    );
    members.push(
        JsonMember {
            key: "description".to_owned(),
            val: JsonVal::Scalar(JsonScalar::Str(m.description.clone())),
        },
    );
    members.push(
        JsonMember {
            key: "price_cents".to_owned(),
            val: JsonVal::Scalar(JsonScalar::Num(i64_to_string(m.price_cents))),
        },
    );
    members.push(
        JsonMember {
            key: "payment_status".to_owned(),
            val: JsonVal::Scalar(JsonScalar::Str(m.payment_status.clone())),
        },
    );
    members.push(
        JsonMember {
            key: "status".to_owned(),
            val: JsonVal::Scalar(JsonScalar::Str(m.status.clone())),
        },
    );
    members.push(
        JsonMember {
            key: "created_at".to_owned(),
            val: JsonVal::Scalar(JsonScalar::Str(m.created_at.clone())),
        },
    );
    members.push(
        JsonMember {
            key: "updated_at".to_owned(),
            val: JsonVal::Scalar(JsonScalar::Str(m.updated_at.clone())),
        },
    );
    let mut items: Vec<JsonScalar> = Vec::new();
    let mut i: usize = 0;
    while i < m.images.len()
        invariant
            i <= m.images@.len(),
            items@.len() == i,
            forall|j: int| 0 <= j < i ==> #[trigger] items@[j]@ == ScalarV::Str(m.images@[j]@),
        decreases m.images@.len() - i,
    {
        items.push(JsonScalar::Str(m.images[i].clone()));
        i += 1;
    }
    proof {
        let av = items@.map_values(|x: JsonScalar| x@);
        let bv = m.images@.map_values(|s: String| s@).map_values(
            |s: Seq<char>| ScalarV::Str(s),
        );
        assert forall|j: int| 0 <= j < av.len() implies av[j] == bv[j] by {
            assert(av[j] == items@[j]@);
            assert(m.images@.map_values(|s: String| s@)[j] == m.images@[j]@);
            assert(bv[j] == ScalarV::Str(m.images@.map_values(|s: String| s@)[j]));
        }
        assert(av =~= bv);
    }
    members.push(JsonMember { key: "images".to_owned(), val: JsonVal::Arr(items) });
    let o = JsonObj { members };
    assert(o@ =~= commission_members(m@));
    obj_to_text(&o)
}

/// Finds the first member with the given key.
fn obj_get<'a>(o: &'a JsonObj, key: &str) -> (r: Option<&'a JsonVal>)
    ensures
        match r {
            Some(v) => obj_get_v(o@, key@) == Some(v@),
            None => obj_get_v(o@, key@) is None,
        },
{
    let ghost ms = o@;
    proof {
        assert(ms.skip(0) =~= ms);
    }
    let mut i: usize = 0;
    while i < o.members.len()
        invariant
            i <= o.members@.len(),
            ms == o@,
            obj_get_v(ms, key@) == obj_get_v(ms.skip(i as int), key@),
        decreases o.members@.len() - i,
    {
        if str_eq(o.members[i].key.as_str(), key) {
            assert(ms.skip(i as int)[0] == ms[i as int]);
            return Some(&o.members[i].val);
        }
        assert(ms.skip(i as int)[0] == ms[i as int]);
        assert(ms.skip(i as int).skip(1) =~= ms.skip(i + 1));
        i += 1;
    }
    assert(ms.skip(ms.len() as int).len() == 0);
    None
}

/// Reads a client record from its JSON text.
pub fn parse_client_text(text: &str) -> (r: Result<Client, String>)
    ensures
        match r {
            Ok(c) => spec_parse_client_text(text@) == Some(c@),
            Err(_) => spec_parse_client_text(text@) is None,
        },
{
    let o = match parse_obj_text(text) {
        Some(o) => o,
        None => {
            return Err("Failed to deserialize client".to_owned());
        },
    };
    let id = match obj_get(&o, "id") {
        Some(JsonVal::Scalar(JsonScalar::Str(s))) => s.clone(),
        _ => {
            return Err("Failed to deserialize client".to_owned());
        },
    };
    let name = match obj_get(&o, "name") {
        Some(JsonVal::Scalar(JsonScalar::Str(s))) => s.clone(),
        _ => {
            return Err("Failed to deserialize client".to_owned());
        },
    };
    let email = match obj_get(&o, "email") {
        Some(JsonVal::Scalar(JsonScalar::Str(s))) => s.clone(),
        _ => {
            return Err("Failed to deserialize client".to_owned());
        },
    };
    let contact = match obj_get(&o, "contact") {
        Some(JsonVal::Scalar(JsonScalar::Str(s))) => s.clone(),
        _ => {
            return Err("Failed to deserialize client".to_owned());
        },
    };
    let profile_image = match obj_get(&o, "profile_image") {
        Some(JsonVal::Scalar(JsonScalar::Str(s))) => Some(s.clone()),
        Some(JsonVal::Scalar(JsonScalar::Null)) => None,
        None => None,
        _ => {
            return Err("Failed to deserialize client".to_owned());
        },
    };
    let notes = match obj_get(&o, "notes") {
        Some(JsonVal::Scalar(JsonScalar::Str(s))) => Some(s.clone()),
        Some(JsonVal::Scalar(JsonScalar::Null)) => None,
        None => None,
        _ => {
            return Err("Failed to deserialize client".to_owned());
        },
    };
    let created_at = match obj_get(&o, "created_at") {
        Some(JsonVal::Scalar(JsonScalar::Str(s))) => s.clone(),
        _ => {
            return Err("Failed to deserialize client".to_owned());
        },
    };
    let updated_at = match obj_get(&o, "updated_at") {
        Some(JsonVal::Scalar(JsonScalar::Str(s))) => s.clone(),
        _ => {
            return Err("Failed to deserialize client".to_owned());
        },
    };
    Ok(Client { id, name, email, contact, profile_image, notes, created_at, updated_at })
}

/// Reads a commission record from its JSON text, legacy price included.
pub fn parse_commission_text(text: &str) -> (r: Result<Commission, String>)
    ensures
        match r {
            Ok(m) => spec_parse_commission_text(text@) == Some(m@),
            Err(_) => spec_parse_commission_text(text@) is None,
        },
{
    let o = match parse_obj_text(text) {
        Some(o) => o,
        None => {
            return Err("Failed to parse commission JSON".to_owned());
        },
    };
    // The price: integer cents, or the legacy decimal dollars.
    let pc_int: Option<i64> = match obj_get(&o, "price_cents") {
        Some(JsonVal::Scalar(JsonScalar::Num(l))) => parse_int_lexeme(l.as_str()),
        _ => None,
    };
    let price_cents: i64 = match pc_int {
        Some(v) => v,
        None => {
            match obj_get(&o, "price") {
                Some(JsonVal::Scalar(JsonScalar::Num(l))) => {
                    match dec_lexeme_to_cents(l.as_str()) {
                        Some(v) => v,
                        None => {
                            return Err("Missing price or price_cents".to_owned());
                        },
                    }
                },
                _ => {
                    return Err("Missing price or price_cents".to_owned());
                },
            }
        },
    };
    let id = str_member_or(&o, "id", "");
    let client_id = str_member_or(&o, "client_id", "");
    let client_name = str_member_or(&o, "client_name", "");
    let title = str_member_or(&o, "title", "");
    let description = str_member_or(&o, "description", "");
    let payment_status = str_member_or(&o, "payment_status", "Not Paid");
    let status = str_member_or(&o, "status", "pending");
    let created_at = str_member_or(&o, "created_at", "");
    let updated_at = str_member_or(&o, "updated_at", "");
    let mut images: Vec<String> = Vec::new();
    match obj_get(&o, "images") {
        Some(JsonVal::Arr(a)) => {
            let mut i: usize = 0;
            while i < a.len()
                invariant
                    i <= a@.len(),
                    images@.map_values(|s: String| s@) == strs_of(
                        a@.map_values(|x: JsonScalar| x@).take(i as int),
                    ),
                decreases a@.len() - i,
            {
                let ghost av = a@.map_values(|x: JsonScalar| x@);
                proof {
                    assert(av[i as int] == a@[i as int]@);
                }
                match &a[i] {
                    JsonScalar::Str(s) => {
                        images.push(s.clone());
                    },
                    _ => {},
                }
                proof {
                    lemma_strs_of_take(av, i as int);
                }
                assert(images@.map_values(|s: String| s@) =~= strs_of(av.take(i + 1)));
                i += 1;
            }
            proof {
                let av = a@.map_values(|x: JsonScalar| x@);
                assert(av.take(av.len() as int) =~= av);
            }
        },
        _ => {
            assert(images@.map_values(|s: String| s@) =~= Seq::<Seq<char>>::empty());
        },
    }
    let out = Commission {
        id,
        client_id,
        client_name,
        title,
        description,
        price_cents,
        payment_status,
        status,
        created_at,
        updated_at,
        images,
    };
    proof {
        reveal_strlit("");
        assert(""@ =~= Seq::<char>::empty());
        assert(out@.images == images_of(o@));
    }
    Ok(out)
}

/// Taking one more item appends its string content, if it is a string.
proof fn lemma_strs_of_take(a: Seq<ScalarV>, i: int)
    requires
        0 <= i < a.len(),
    ensures
        strs_of(a.take(i + 1)) == match a[i] {
            ScalarV::Str(s) => strs_of(a.take(i)) + seq![s],
            _ => strs_of(a.take(i)),
        },
    decreases i,
{
    if i == 0 {
        assert(a.take(1)[0] == a[0]);
        assert(a.take(1).skip(1) =~= Seq::<ScalarV>::empty());
        assert(a.take(0) =~= Seq::<ScalarV>::empty());
        match a[0] {
            ScalarV::Str(s) => {
                assert(strs_of(a.take(1)) == seq![s] + strs_of(a.take(1).skip(1)));
                assert(seq![s] + Seq::<Seq<char>>::empty() =~= Seq::<Seq<char>>::empty()
                    + seq![s]);
            },
            _ => {},
        }
    } else {
        lemma_strs_of_take(a.skip(1), i - 1);
        assert(a.take(i + 1)[0] == a[0]);
        assert(a.take(i + 1).skip(1) =~= a.skip(1).take(i));
        assert(a.take(i).skip(1) =~= a.skip(1).take(i - 1));
        assert(a.take(i)[0] == a[0]);
        assert(a.skip(1)[i - 1] == a[i]);
        match a[0] {
            ScalarV::Str(s0) => {
                assert(strs_of(a.take(i + 1)) == seq![s0] + strs_of(a.skip(1).take(i)));
                assert(strs_of(a.take(i)) == seq![s0] + strs_of(a.skip(1).take(i - 1)));
                match a[i] {
                    ScalarV::Str(s) => {
                        assert(seq![s0] + (strs_of(a.skip(1).take(i - 1)) + seq![s]) =~= (
                        seq![s0] + strs_of(a.skip(1).take(i - 1))) + seq![s]);
                    },
                    _ => {},
                }
            },
            _ => {
                assert(strs_of(a.take(i + 1)) == strs_of(a.skip(1).take(i)));
                assert(strs_of(a.take(i)) == strs_of(a.skip(1).take(i - 1)));
            },
        }
    }
}

/// A string member, or the given fallback.
fn str_member_or(o: &JsonObj, key: &str, dflt: &str) -> (r: String)
    ensures
        r@ == str_field_or(o@, key@, dflt@),
{
    match obj_get(o, key) {
        Some(JsonVal::Scalar(JsonScalar::Str(s))) => s.clone(),
        _ => dflt.to_owned(),
    }
}

/// Looking a key up finds the member at `j` when nothing before it has
/// that key.
proof fn lemma_get_at(ms: Seq<MemberV>, key: Seq<char>, j: int)
    requires
        0 <= j < ms.len(),
        ms[j].key == key,
        forall|k: int| 0 <= k < j ==> (#[trigger] ms[k].key) != key,
    ensures
        obj_get_v(ms, key) == Some(ms[j].val),
    decreases j,
{
    if j > 0 {
        assert(ms[0].key != key);
        assert(ms.skip(1)[j - 1] == ms[j]);
        assert forall|k: int| 0 <= k < j - 1 implies (#[trigger] ms.skip(1)[k].key) != key by {
            assert(ms.skip(1)[k] == ms[k + 1]);
        }
        lemma_get_at(ms.skip(1), key, j - 1);
    }
}

/// An all-string array reads back as exactly its strings.
proof fn lemma_strs_of_all(xs: Seq<Seq<char>>)
    ensures
        strs_of(xs.map_values(|s: Seq<char>| ScalarV::Str(s))) == xs,
    decreases xs.len(),
{
    let a = xs.map_values(|s: Seq<char>| ScalarV::Str(s));
    if xs.len() > 0 {
        assert(a[0] == ScalarV::Str(xs[0]));
        assert(a.skip(1) =~= xs.skip(1).map_values(|s: Seq<char>| ScalarV::Str(s)));
        lemma_strs_of_all(xs.skip(1));
        assert(strs_of(a) == seq![xs[0]] + xs.skip(1));
        assert(seq![xs[0]] + xs.skip(1) =~= xs);
    } else {
        assert(a =~= Seq::<ScalarV>::empty());
    }
}

/// The written form of a client record is well formed for the writer.
proof fn lemma_client_members_wf(c: ClientView)
    ensures
        wf_members(client_members(c)),
{
    let ms = client_members(c);
    assert forall|i: int| 0 <= i < ms.len() implies wf_val(#[trigger] ms[i].val) by {
        assert(0 <= i < 8);
    }
}

/// Saving a client record and reading its file back returns an equal
/// record: the written text of any client parses to that client.
pub proof fn lemma_client_round_trip(c: ClientView)
    ensures
        spec_parse_client_text(client_json_text(c)) == Some(c),
{
    lemma_client_members_wf(c);
    lemma_obj_round_trip(client_members(c));
    let ms = client_members(c);
    reveal_strlit("id");
    reveal_strlit("name");
    reveal_strlit("email");
    reveal_strlit("contact");
    reveal_strlit("profile_image");
    reveal_strlit("notes");
    reveal_strlit("created_at");
    reveal_strlit("updated_at");
    assert(ms[0].key == "id"@ && ms[1].key == "name"@ && ms[2].key == "email"@ && ms[3].key
        == "contact"@ && ms[4].key == "profile_image"@ && ms[5].key == "notes"@ && ms[6].key
        == "created_at"@ && ms[7].key == "updated_at"@);
    assert("email"@ != "notes"@) by {
        assert("email"@[0] == 'e');
        assert("notes"@[0] == 'n');
    }
    assert("created_at"@ != "updated_at"@) by {
        assert("created_at"@[0] == 'c');
        assert("updated_at"@[0] == 'u');
    }
    lemma_get_at(ms, "id"@, 0);
    lemma_get_at(ms, "name"@, 1);
    lemma_get_at(ms, "email"@, 2);
    lemma_get_at(ms, "contact"@, 3);
    lemma_get_at(ms, "profile_image"@, 4);
    lemma_get_at(ms, "notes"@, 5);
    lemma_get_at(ms, "created_at"@, 6);
    lemma_get_at(ms, "updated_at"@, 7);
    assert(spec_parse_client(ms) == Some(c));
}

/// The written form of a commission record is well formed for the writer.
proof fn lemma_commission_members_wf(m: CommissionView)
    requires
        i64::MIN <= m.price_cents <= i64::MAX,
    ensures
        wf_members(commission_members(m)),
{
    let ms = commission_members(m);
    lemma_i64_rep(m.price_cents);
    assert forall|i: int| 0 <= i < ms.len() implies wf_val(#[trigger] ms[i].val) by {
        assert(0 <= i < 11);
        if i == 5 {
            assert(wf_scalar(ScalarV::Num(i64_rep(m.price_cents))));
        }
        if i == 10 {
            let a = m.images.map_values(|s: Seq<char>| ScalarV::Str(s));
            assert forall|k: int| 0 <= k < a.len() implies wf_scalar(#[trigger] a[k]) by {
                assert(a[k] == ScalarV::Str(m.images[k]));
            }
        }
    }
}

/// Saving a commission record and reading its file back returns an equal
/// record, the integer price included.
pub proof fn lemma_commission_round_trip(m: CommissionView)
    requires
        i64::MIN <= m.price_cents <= i64::MAX,
    ensures
        spec_parse_commission_text(commission_json_text(m)) == Some(m),
{
    lemma_commission_members_wf(m);
    lemma_obj_round_trip(commission_members(m));
    let ms = commission_members(m);
    reveal_strlit("id");
    reveal_strlit("client_id");
    reveal_strlit("client_name");
    reveal_strlit("title");
    reveal_strlit("description");
    reveal_strlit("price_cents");
    reveal_strlit("payment_status");
    reveal_strlit("status");
    reveal_strlit("created_at");
    reveal_strlit("updated_at");
    reveal_strlit("images");
    assert(ms[0].key == "id"@ && ms[1].key == "client_id"@ && ms[2].key == "client_name"@
        && ms[3].key == "title"@ && ms[4].key == "description"@ && ms[5].key == "price_cents"@
        && ms[6].key == "payment_status"@ && ms[7].key == "status"@ && ms[8].key
        == "created_at"@ && ms[9].key == "updated_at"@ && ms[10].key == "images"@);
    assert("client_name"@ != "description"@ && "client_name"@ != "price_cents"@
        && "description"@ != "price_cents"@) by {
        assert("client_name"@[0] == 'c');
        assert("description"@[0] == 'd');
        assert("price_cents"@[0] == 'p');
    }
    assert("status"@ != "images"@) by {
        assert("status"@[0] == 's');
        assert("images"@[0] == 'i');
    }
    assert("created_at"@ != "updated_at"@) by {
        assert("created_at"@[0] == 'c');
        assert("updated_at"@[0] == 'u');
    }
    lemma_get_at(ms, "id"@, 0);
    lemma_get_at(ms, "client_id"@, 1);
    lemma_get_at(ms, "client_name"@, 2);
    lemma_get_at(ms, "title"@, 3);
    lemma_get_at(ms, "description"@, 4);
    lemma_get_at(ms, "price_cents"@, 5);
    lemma_get_at(ms, "payment_status"@, 6);
    lemma_get_at(ms, "status"@, 7);
    lemma_get_at(ms, "created_at"@, 8);
    lemma_get_at(ms, "updated_at"@, 9);
    lemma_get_at(ms, "images"@, 10);
    lemma_i64_rep(m.price_cents);
    lemma_strs_of_all(m.images);
    assert(spec_price_of(ms) == Some(m.price_cents));
    assert(images_of(ms) == m.images);
    assert(spec_parse_commission(ms) == Some(m));
}

} // verus!
