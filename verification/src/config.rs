//! The persisted-configuration model and the recursive merge used when
//! a record is saved over an existing file.
//!
//! A configuration document is a tree of scalars, lists and keyed
//! objects, as a YAML or JSON file holds it. The store collaborator
//! reads and writes the file; the library owns the merge rule: merging
//! a new document into an existing one replaces each value except where
//! both sides are objects, which are merged key by key, keeping the
//! existing order and appending new keys in the order the new document
//! gives them.

use vstd::prelude::*;

verus! {

broadcast use vstd::std_specs::vec::axiom_vec_index_decreases;

/// The mathematical shape of a configuration document.
pub enum SpecValue {
    Null,
    Bool(bool),
    Int(int),
    Str(Seq<char>),
    List(Seq<SpecValue>),
    Object(Seq<(Seq<char>, SpecValue)>),
}

/// A configuration document: a scalar, a list, or an object of keyed
/// entries in file order.
pub enum ConfigValue {
    /// An absent or null value.
    Null,
    /// A boolean scalar.
    Bool(bool),
    /// An integer scalar.
    Int(i64),
    /// A string scalar.
    Str(String),
    /// A list of values in document order.
    List(Vec<ConfigValue>),
    /// An object: keyed entries in document order.
    Object(Vec<(String, ConfigValue)>),
}

/// The abstraction of one vector of object entries.
pub open spec fn entries_view(es: Seq<(String, ConfigValue)>) -> Seq<(Seq<char>, SpecValue)> {
    Seq::new(es.len(), |i: int| (es[i].0@, es[i].1@))
}

/// The abstraction of a document.
pub open spec fn spec_value_of(v: ConfigValue) -> SpecValue
    decreases v,
{
    match v {
        ConfigValue::Null => SpecValue::Null,
        ConfigValue::Bool(b) => SpecValue::Bool(b),
        ConfigValue::Int(i) => SpecValue::Int(i as int),
        ConfigValue::Str(s) => SpecValue::Str(s@),
        ConfigValue::List(xs) => SpecValue::List(
            Seq::new(xs@.len(), |i: int| if 0 <= i < xs@.len() {
                spec_value_of(xs@[i])
            } else {
                SpecValue::Null
            }),
        ),
        ConfigValue::Object(es) => SpecValue::Object(
            Seq::new(es@.len(), |i: int| if 0 <= i < es@.len() {
                (es@[i].0@, spec_value_of(es@[i].1))
            } else {
                (Seq::empty(), SpecValue::Null)
            }),
        ),
    }
}

impl View for ConfigValue {
    type V = SpecValue;

    open spec fn view(&self) -> SpecValue {
        spec_value_of(*self)
    }
}

/// The value under the first occurrence of key `k`, if any.
pub open spec fn slookup(es: Seq<(Seq<char>, SpecValue)>, k: Seq<char>) -> Option<SpecValue>
    decreases es.len(),
{
    if es.len() == 0 {
        None
    } else if es[0].0 == k {
        Some(es[0].1)
    } else {
        slookup(es.drop_first(), k)
    }
}

/// The index of the first occurrence of key `k`.
pub open spec fn key_index(es: Seq<(Seq<char>, SpecValue)>, k: Seq<char>) -> int
    decreases es.len(),
{
    if es.len() == 0 {
        0
    } else if es[0].0 == k {
        0
    } else {
        1 + key_index(es.drop_first(), k)
    }
}

/// A first match at `j` fixes both `slookup` and `key_index`.
pub proof fn lemma_slookup_at(es: Seq<(Seq<char>, SpecValue)>, k: Seq<char>, j: int)
    requires
        0 <= j < es.len(),
        es[j].0 == k,
        forall|i: int| 0 <= i < j ==> es[i].0 != k,
    ensures
        slookup(es, k) == Some(es[j].1),
        key_index(es, k) == j,
    decreases j,
{
    if j > 0 {
        lemma_slookup_at(es.drop_first(), k, j - 1);
    }
}

/// No entry has key `k`, so lookup fails.
pub proof fn lemma_slookup_none(es: Seq<(Seq<char>, SpecValue)>, k: Seq<char>)
    requires
        forall|i: int| 0 <= i < es.len() ==> es[i].0 != k,
    ensures
        slookup(es, k) is None,
    decreases es.len(),
{
    if es.len() > 0 {
        lemma_slookup_none(es.drop_first(), k);
    }
}

/// A failed lookup means no entry carries the key.
pub proof fn lemma_slookup_none_keys(es: Seq<(Seq<char>, SpecValue)>, k: Seq<char>)
    requires
        slookup(es, k) is None,
    ensures
        forall|i: int| 0 <= i < es.len() ==> es[i].0 != k,
    decreases es.len(),
{
    if es.len() > 0 {
        lemma_slookup_none_keys(es.drop_first(), k);
        assert forall|i: int| 0 <= i < es.len() implies es[i].0 != k by {
            if i > 0 {
                assert(es.drop_first()[i - 1] == es[i]);
            }
        }
    }
}

/// A successful lookup names the first entry under the key.
pub proof fn lemma_key_index_props(es: Seq<(Seq<char>, SpecValue)>, k: Seq<char>)
    requires
        slookup(es, k) is Some,
    ensures
        0 <= key_index(es, k) < es.len(),
        es[key_index(es, k)].0 == k,
        slookup(es, k) == Some(es[key_index(es, k)].1),
        forall|i: int| 0 <= i < key_index(es, k) ==> es[i].0 != k,
    decreases es.len(),
{
    if es.len() > 0 && es[0].0 != k {
        lemma_key_index_props(es.drop_first(), k);
        let j = key_index(es, k);
        assert(es.drop_first()[j - 1] == es[j]);
        assert forall|i: int| 0 <= i < j implies es[i].0 != k by {
            if i > 0 {
                assert(es.drop_first()[i - 1] == es[i]);
            }
        }
    }
}

/// One entry `e` of the new document applied to the accumulated
/// entries `es`: the first entry under `e`'s key is replaced by the
/// merge of its value with `e`'s, and a fresh key is appended.
pub open spec fn merge_entry(
    es: Seq<(Seq<char>, SpecValue)>,
    e: (Seq<char>, SpecValue),
) -> Seq<(Seq<char>, SpecValue)>
    decreases e, 0int,
{
    if slookup(es, e.0) is Some {
        es.update(key_index(es, e.0), (e.0, spec_merge(slookup(es, e.0)->Some_0, e.1)))
    } else {
        es.push(e)
    }
}

/// The entries of the new document applied in order.
pub open spec fn spec_merge_entries(
    ao: Seq<(Seq<char>, SpecValue)>,
    bo: Seq<(Seq<char>, SpecValue)>,
) -> Seq<(Seq<char>, SpecValue)>
    decreases bo, 1int,
{
    if bo.len() == 0 {
        ao
    } else {
        spec_merge_entries(merge_entry(ao, bo[0]), bo.drop_first())
    }
}

/// The merge of document `b` into document `a`: objects merge key by
/// key, and any other pairing replaces the old value with the new one.
pub open spec fn spec_merge(a: SpecValue, b: SpecValue) -> SpecValue
    decreases b, 2int,
{
    match (a, b) {
        (SpecValue::Object(ao), SpecValue::Object(bo)) => SpecValue::Object(
            spec_merge_entries(ao, bo),
        ),
        (_, _) => b,
    }
}

impl ConfigValue {
    /// An owned copy of the document, equal in value.
    #[verifier::loop_isolation(false)]
    pub fn deep_copy(&self) -> (r: ConfigValue)
        ensures
            r@ == self@,
        decreases self,
    {
        match self {
            ConfigValue::Null => ConfigValue::Null,
            ConfigValue::Bool(b) => ConfigValue::Bool(*b),
            ConfigValue::Int(i) => ConfigValue::Int(*i),
            ConfigValue::Str(s) => ConfigValue::Str(s.clone()),
            ConfigValue::List(xs) => {
                let mut out: Vec<ConfigValue> = Vec::new();
                let mut i: usize = 0;
                while i < xs.len()
                    invariant
                        0 <= i <= xs@.len(),
                        out@.len() == i,
                        forall|q: int| 0 <= q < i ==> out@[q]@ == xs@[q]@,
                    decreases xs@.len() - i,
                {
                    let c = xs[i].deep_copy();
                    out.push(c);
                    i += 1;
                }
                let r = ConfigValue::List(out);
                proof {
                    assert(r@->List_0 =~= self@->List_0);
                }
                r
            },
            ConfigValue::Object(es) => {
                let mut out: Vec<(String, ConfigValue)> = Vec::new();
                let mut i: usize = 0;
                while i < es.len()
                    invariant
                        0 <= i <= es@.len(),
                        out@.len() == i,
                        forall|q: int|
                            0 <= q < i ==> out@[q].0@ == es@[q].0@ && out@[q].1@ == es@[q].1@,
                    decreases es@.len() - i,
                {
                    let key = es[i].0.clone();
                    let val = es[i].1.deep_copy();
                    out.push((key, val));
                    i += 1;
                }
                let r = ConfigValue::Object(out);
                proof {
                    assert(r@->Object_0 =~= self@->Object_0);
                }
                r
            },
        }
    }
}

/// The index of the first entry under `key`, if any.
fn find_key(es: &Vec<(String, ConfigValue)>, key: &String) -> (r: Option<usize>)
    ensures
        match r {
            Some(j) => {
                &&& j < es@.len()
                &&& es@[j as int].0@ == key@
                &&& forall|q: int| 0 <= q < j ==> es@[q].0@ != key@
            },
            None => forall|q: int| 0 <= q < es@.len() ==> es@[q].0@ != key@,
        },
{
    let mut j: usize = 0;
    while j < es.len()
        invariant
            0 <= j <= es@.len(),
            forall|q: int| 0 <= q < j ==> es@[q].0@ != key@,
        decreases es@.len() - j,
    {
        if es[j].0 == *key {
            return Some(j);
        }
        j += 1;
    }
    None
}

/// The merge of document `b` into document `a`, as an owned value.
#[verifier::loop_isolation(false)]
pub fn merged_value(a: &ConfigValue, b: &ConfigValue) -> (r: ConfigValue)
    ensures
        r@ == spec_merge(a@, b@),
    decreases *b,
{
    match b {
        ConfigValue::Object(bo) => {
            if let ConfigValue::Object(ao) = a {
            let ghost aview = a@->Object_0;
            let ghost bview = b@->Object_0;
            let mut out: Vec<(String, ConfigValue)> = Vec::new();
            let mut i: usize = 0;
            while i < ao.len()
                invariant
                    0 <= i <= ao@.len(),
                    out@.len() == i,
                    forall|q: int|
                        0 <= q < i ==> out@[q].0@ == ao@[q].0@ && out@[q].1@ == ao@[q].1@,
                decreases ao@.len() - i,
            {
                let key = ao[i].0.clone();
                let val = ao[i].1.deep_copy();
                out.push((key, val));
                i += 1;
            }
            proof {
                assert(entries_view(out@) =~= aview);
                assert(bview.subrange(0, bview.len() as int) =~= bview);
            }
            let mut i: usize = 0;
            while i < bo.len()
                invariant
                    0 <= i <= bo@.len(),
                    spec_merge_entries(entries_view(out@), bview.subrange(i as int, bview.len() as int))
                        == spec_merge_entries(aview, bview),
                decreases bo@.len() - i,
            {
                let ghost pre = entries_view(out@);
                let found = find_key(&out, &bo[i].0);
                let ghost e = bview[i as int];
                if let Some(j) = found {
                    proof {
                        assert(pre[j as int].0 == e.0);
                        assert(forall|q: int| 0 <= q < j ==> pre[q].0 != e.0);
                        lemma_slookup_at(pre, e.0, j as int);
                    }
                    let merged = merged_value(&out[j].1, &bo[i].1);
                    let newkey = bo[i].0.clone();
                    out[j] = (newkey, merged);
                    proof {
                        assert(entries_view(out@) =~= merge_entry(pre, e));
                    }
                } else {
                    proof {
                        assert(forall|q: int| 0 <= q < pre.len() ==> pre[q].0 != e.0);
                        lemma_slookup_none(pre, e.0);
                    }
                    let newkey = bo[i].0.clone();
                    let newval = bo[i].1.deep_copy();
                    out.push((newkey, newval));
                    proof {
                        assert(entries_view(out@) =~= merge_entry(pre, e));
                    }
                }
                proof {
                    let rest = bview.subrange(i as int, bview.len() as int);
                    assert(rest[0] == e);
                    assert(rest.drop_first() =~= bview.subrange(i + 1, bview.len() as int));
                }
                i += 1;
            }
            proof {
                assert(bview.subrange(bview.len() as int, bview.len() as int) =~= Seq::<(
                    Seq<char>,
                    SpecValue,
                )>::empty());
            }
            let r = ConfigValue::Object(out);
            proof {
                assert(r@->Object_0 =~= entries_view(out@));
                assert(r@ == spec_merge(a@, b@));
            }
            r
            } else {
                let r = b.deep_copy();
                proof {
                    assert(spec_merge(a@, b@) == b@);
                }
                r
            }
        },
        _ => {
            let r = b.deep_copy();
            proof {
                assert(spec_merge(a@, b@) == b@);
            }
            r
        },
    }
}

/// Recursively merge document `b` into document `a` in place.
pub fn merge_configs(a: &mut ConfigValue, b: &ConfigValue)
    ensures
        final(a)@ == spec_merge(old(a)@, b@),
{
    let merged = merged_value(&*a, b);
    *a = merged;
}

/// What one merged entry does to lookups: its own key now holds the
/// merged value, every other key is untouched.
pub proof fn lemma_merge_entry_lookup(
    es: Seq<(Seq<char>, SpecValue)>,
    e: (Seq<char>, SpecValue),
    k: Seq<char>,
)
    ensures
        slookup(merge_entry(es, e), e.0) == Some(
            match slookup(es, e.0) {
                Some(v) => spec_merge(v, e.1),
                None => e.1,
            },
        ),
        k != e.0 ==> slookup(merge_entry(es, e), k) == slookup(es, k),
{
    if slookup(es, e.0) is Some {
        lemma_key_index_props(es, e.0);
        let j = key_index(es, e.0);
        let es2 = es.update(j, (e.0, spec_merge(slookup(es, e.0)->Some_0, e.1)));
        lemma_slookup_at(es2, e.0, j);
        if k != e.0 {
            match slookup(es, k) {
                Some(_) => {
                    lemma_key_index_props(es, k);
                    lemma_slookup_at(es2, k, key_index(es, k));
                },
                None => {
                    lemma_slookup_none_keys(es, k);
                    lemma_slookup_none(es2, k);
                },
            }
        }
    } else {
        let es2 = es.push(e);
        lemma_slookup_none_keys(es, e.0);
        lemma_slookup_at(es2, e.0, es.len() as int);
        if k != e.0 {
            match slookup(es, k) {
                Some(_) => {
                    lemma_key_index_props(es, k);
                    lemma_slookup_at(es2, k, key_index(es, k));
                },
                None => {
                    lemma_slookup_none_keys(es, k);
                    lemma_slookup_none(es2, k);
                },
            }
        }
    }
}

/// The value under `key` when the document is an object.
pub open spec fn sv_get(sv: SpecValue, k: Seq<char>) -> Option<SpecValue> {
    match sv {
        SpecValue::Object(es) => slookup(es, k),
        _ => None,
    }
}

impl ConfigValue {
    /// The value under `key`, when this document is an object that
    /// holds the key.
    #[verifier::loop_isolation(false)]
    pub fn get<'a>(&'a self, key: &str) -> (r: Option<&'a ConfigValue>)
        ensures
            match r {
                Some(v) => sv_get(self@, key@) == Some(v@),
                None => sv_get(self@, key@) is None,
            },
    {
        match self {
            ConfigValue::Object(es) => {
                let ghost sview = self@->Object_0;
                let mut j: usize = 0;
                while j < es.len()
                    invariant
                        0 <= j <= es@.len(),
                        forall|q: int| 0 <= q < j ==> es@[q].0@ != key@,
                    decreases es@.len() - j,
                {
                    if crate::strutil::str_eq(es[j].0.as_str(), key) {
                        proof {
                            assert(forall|q: int| 0 <= q < j ==> sview[q].0 != key@);
                            assert(sview[j as int].0 == key@);
                            lemma_slookup_at(sview, key@, j as int);
                        }
                        return Some(&es[j].1);
                    }
                    j += 1;
                }
                proof {
                    assert(forall|q: int| 0 <= q < sview.len() ==> sview[q].0 != key@);
                    lemma_slookup_none(sview, key@);
                }
                None
            },
            _ => None,
        }
    }
}

/// The view of an optional string.
pub open spec fn opt_str_view(o: Option<String>) -> Option<Seq<char>> {
    match o {
        Some(s) => Some(s@),
        None => None,
    }
}

/// An optional credential field as a stored value: absent tokens are
/// stored as null.
pub open spec fn opt_value(o: Option<Seq<char>>) -> SpecValue {
    match o {
        Some(s) => SpecValue::Str(s),
        None => SpecValue::Null,
    }
}

/// The stored shape of a credential record.
pub open spec fn spec_credential_value(
    u: Seq<char>,
    t: Option<Seq<char>>,
    a: Option<Seq<char>>,
) -> SpecValue {
    SpecValue::Object(
        seq![
            ("username"@, SpecValue::Str(u)),
            ("token"@, opt_value(t)),
            ("access_token"@, opt_value(a)),
        ],
    )
}

/// An optional string field of a stored record: an absent or null key
/// reads as no value, a string as that value; any other shape fails.
pub open spec fn spec_opt_field(
    es: Seq<(Seq<char>, SpecValue)>,
    k: Seq<char>,
) -> Option<Option<Seq<char>>> {
    match slookup(es, k) {
        None => Some(None),
        Some(SpecValue::Null) => Some(None),
        Some(SpecValue::Str(s)) => Some(Some(s)),
        Some(_) => None,
    }
}

/// The credential a stored document describes, if it is an object with
/// a string `username` and optional string `token` and `access_token`.
pub open spec fn spec_credential_of(sv: SpecValue) -> Option<
    (Seq<char>, Option<Seq<char>>, Option<Seq<char>>),
> {
    match sv {
        SpecValue::Object(es) => match slookup(es, "username"@) {
            Some(SpecValue::Str(u)) => match spec_opt_field(es, "token"@) {
                Some(t) => match spec_opt_field(es, "access_token"@) {
                    Some(a) => Some((u, t, a)),
                    None => None,
                },
                None => None,
            },
            _ => None,
        },
        _ => None,
    }
}

/// The stored credential of one account: the session token and the
/// long-lived access token, each present only after the matching stage
/// of the exchange succeeded.
pub struct DdConfig {
    /// The account name the provider knows.
    pub username: String,
    /// The session token from OTP redemption, if one was obtained.
    pub token: Option<String>,
    /// The long-lived access token from the dashboard, if one was
    /// obtained.
    pub access_token: Option<String>,
}

impl DdConfig {
    /// Bundle a credential record.
    pub fn new(username: String, token: Option<String>, access_token: Option<String>) -> (r:
        DdConfig)
        ensures
            r.username@ == username@,
            r.token == token,
            r.access_token == access_token,
    {
        DdConfig { username, token, access_token }
    }

    /// The record as a configuration document, ready to be merged over
    /// the stored file.
    pub fn to_value(&self) -> (r: ConfigValue)
        ensures
            r@ == spec_credential_value(
                self.username@,
                opt_str_view(self.token),
                opt_str_view(self.access_token),
            ),
    {
        let mut es: Vec<(String, ConfigValue)> = Vec::new();
        es.push((String::from_str("username"), ConfigValue::Str(self.username.clone())));
        let tv = match &self.token {
            Some(t) => ConfigValue::Str(t.clone()),
            None => ConfigValue::Null,
        };
        es.push((String::from_str("token"), tv));
        let av = match &self.access_token {
            Some(t) => ConfigValue::Str(t.clone()),
            None => ConfigValue::Null,
        };
        es.push((String::from_str("access_token"), av));
        let r = ConfigValue::Object(es);
        proof {
            let target = spec_credential_value(
                self.username@,
                opt_str_view(self.token),
                opt_str_view(self.access_token),
            );
            assert(es@.len() == 3);
            assert(es@[0].0@ == "username"@ && spec_value_of(es@[0].1) == SpecValue::Str(
                self.username@,
            ));
            assert(es@[1].0@ == "token"@ && spec_value_of(es@[1].1) == opt_value(
                opt_str_view(self.token),
            ));
            assert(es@[2].0@ == "access_token"@ && spec_value_of(es@[2].1) == opt_value(
                opt_str_view(self.access_token),
            ));
            assert(r@->Object_0 =~= target->Object_0);
        }
        r
    }

    /// Read a credential record back from a stored document.
    pub fn from_value(v: &ConfigValue) -> (r: Option<DdConfig>)
        ensures
            match r {
                Some(c) => spec_credential_of(v@) == Some(
                    (c.username@, opt_str_view(c.token), opt_str_view(c.access_token)),
                ),
                None => spec_credential_of(v@) is None,
            },
    {
        let username = match v.get("username") {
            Some(ConfigValue::Str(s)) => s.clone(),
            Some(_) => {
                return None;
            },
            None => {
                return None;
            },
        };
        let token = match v.get("token") {
            None => None,
            Some(ConfigValue::Null) => None,
            Some(ConfigValue::Str(s)) => Some(s.clone()),
            Some(_) => {
                return None;
            },
        };
        let access_token = match v.get("access_token") {
            None => None,
            Some(ConfigValue::Null) => None,
            Some(ConfigValue::Str(s)) => Some(s.clone()),
            Some(_) => {
                return None;
            },
        };
        Some(DdConfig { username, token, access_token })
    }
}

/// Saving a credential over any existing document and reading it back
/// yields the same username, session token and access token, and every
/// key of an existing object other than the record's three is left
/// untouched.
pub proof fn lemma_credential_round_trip(
    u: Seq<char>,
    t: Option<Seq<char>>,
    a: Option<Seq<char>>,
    existing: SpecValue,
)
    ensures
        spec_credential_of(spec_merge(existing, spec_credential_value(u, t, a))) == Some(
            (u, t, a),
        ),
        existing is Object ==> spec_merge(existing, spec_credential_value(u, t, a)) is Object,
        existing is Object ==> forall|k: Seq<char>|
            k != "username"@ && k != "token"@ && k != "access_token"@ ==> #[trigger] slookup(
                spec_merge(existing, spec_credential_value(u, t, a))->Object_0,
                k,
            ) == slookup(existing->Object_0, k),
{
    reveal_strlit("username");
    reveal_strlit("token");
    reveal_strlit("access_token");
    let ku = "username"@;
    let kt = "token"@;
    let ka = "access_token"@;
    assert(ku.len() == 8 && kt.len() == 5 && ka.len() == 12);
    let cred = spec_credential_value(u, t, a);
    let bo = cred->Object_0;
    assert(bo.len() == 3);
    assert(bo[0] == (ku, SpecValue::Str(u)));
    assert(bo[1] == (kt, opt_value(t)));
    assert(bo[2] == (ka, opt_value(a)));
    match existing {
        SpecValue::Object(es0) => {
            let s1 = bo.drop_first();
            let s2 = s1.drop_first();
            let s3 = s2.drop_first();
            assert(s1[0] == bo[1] && s1[1] == bo[2] && s1.len() == 2);
            assert(s2[0] == bo[2] && s2.len() == 1);
            assert(s3.len() == 0);
            let e1 = merge_entry(es0, bo[0]);
            let e2 = merge_entry(e1, bo[1]);
            let e3 = merge_entry(e2, bo[2]);
            assert(spec_merge_entries(es0, bo) == spec_merge_entries(e1, s1));
            assert(spec_merge_entries(e1, s1) == spec_merge_entries(e2, s2));
            assert(spec_merge_entries(e2, s2) == spec_merge_entries(e3, s3));
            assert(spec_merge_entries(e3, s3) == e3);
            assert(spec_merge(existing, cred) == SpecValue::Object(e3));
            lemma_merge_entry_lookup(es0, bo[0], ku);
            assert(slookup(e1, ku) == Some(SpecValue::Str(u))) by {
                if slookup(es0, ku) is Some {
                    assert(spec_merge(slookup(es0, ku)->Some_0, SpecValue::Str(u))
                        == SpecValue::Str(u));
                }
            }
            lemma_merge_entry_lookup(e1, bo[1], ku);
            lemma_merge_entry_lookup(e2, bo[2], ku);
            assert(slookup(e3, ku) == Some(SpecValue::Str(u)));
            lemma_merge_entry_lookup(e1, bo[1], kt);
            assert(slookup(e2, kt) == Some(opt_value(t))) by {
                if slookup(e1, kt) is Some {
                    assert(spec_merge(slookup(e1, kt)->Some_0, opt_value(t)) == opt_value(t)) by {
                        match t {
                            Some(_) => {},
                            None => {},
                        }
                    }
                }
            }
            lemma_merge_entry_lookup(e2, bo[2], kt);
            assert(slookup(e3, kt) == Some(opt_value(t)));
            lemma_merge_entry_lookup(e2, bo[2], ka);
            assert(slookup(e3, ka) == Some(opt_value(a))) by {
                if slookup(e2, ka) is Some {
                    assert(spec_merge(slookup(e2, ka)->Some_0, opt_value(a)) == opt_value(a)) by {
                        match a {
                            Some(_) => {},
                            None => {},
                        }
                    }
                }
            }
            assert(spec_opt_field(e3, kt) == Some(t)) by {
                match t {
                    Some(_) => {},
                    None => {},
                }
            }
            assert(spec_opt_field(e3, ka) == Some(a)) by {
                match a {
                    Some(_) => {},
                    None => {},
                }
            }
            assert(spec_credential_of(SpecValue::Object(e3)) == Some((u, t, a)));
            assert forall|k: Seq<char>| k != ku && k != kt && k != ka implies #[trigger] slookup(
                spec_merge(existing, cred)->Object_0,
                k,
            ) == slookup(es0, k) by {
                lemma_merge_entry_lookup(es0, bo[0], k);
                lemma_merge_entry_lookup(e1, bo[1], k);
                lemma_merge_entry_lookup(e2, bo[2], k);
            }
        },
        _ => {
            assert(spec_merge(existing, cred) == cred);
            lemma_slookup_at(bo, ku, 0);
            lemma_slookup_at(bo, kt, 1);
            lemma_slookup_at(bo, ka, 2);
            assert(slookup(bo, ku) == Some(SpecValue::Str(u)));
            assert(slookup(bo, kt) == Some(opt_value(t)));
            assert(slookup(bo, ka) == Some(opt_value(a)));
            assert(spec_opt_field(bo, kt) == Some(t)) by {
                match t {
                    Some(_) => {},
                    None => {},
                }
            }
            assert(spec_opt_field(bo, ka) == Some(a)) by {
                match a {
                    Some(_) => {},
                    None => {},
                }
            }
        },
    }
}

} // verus!
