//! JSON values: a model of their own, read and written with `serde_json`.
use crate::text;
use vstd::prelude::*;

verus! {

/// A JSON number: an integer where it is one, else the decimal text of a double.
#[derive(Clone, Debug, PartialEq, Eq)]
pub enum Number {
    PosInt(u64),
    NegInt(i64),
    Float(String),
}

/// What a [`Number`] says.
#[verifier::ext_equal]
pub enum NumberModel {
    PosInt(u64),
    NegInt(i64),
    Float(Seq<char>),
}

impl View for Number {
    type V = NumberModel;

    open spec fn view(&self) -> NumberModel {
        match self {
            Number::PosInt(n) => NumberModel::PosInt(*n),
            Number::NegInt(n) => NumberModel::NegInt(*n),
            Number::Float(s) => NumberModel::Float(s@),
        }
    }
}

impl Number {
    /// A copy.
    pub fn copy(&self) -> (r: Number)
        ensures
            r@ == self@,
    {
        match self {
            Number::PosInt(n) => Number::PosInt(*n),
            Number::NegInt(n) => Number::NegInt(*n),
            Number::Float(s) => Number::Float(s.clone()),
        }
    }
}

/// A JSON value. Where a key of an object occurs twice, the later one counts.
#[derive(Debug, PartialEq, Eq)]
pub enum Json {
    Null,
    Bool(bool),
    Number(Number),
    Text(String),
    Array(Vec<Json>),
    Object(Vec<(String, Json)>),
}

/// What a [`Json`] says.
#[verifier::ext_equal]
pub enum JsonModel {
    Null,
    Bool(bool),
    Number(NumberModel),
    Text(Seq<char>),
    Array(Seq<JsonModel>),
    Object(Map<Seq<char>, JsonModel>),
}

/// The model of a value.
pub open spec fn model_of(j: Json) -> JsonModel
    decreases j, 0nat,
{
    match j {
        Json::Null => JsonModel::Null,
        Json::Bool(b) => JsonModel::Bool(b),
        Json::Number(n) => JsonModel::Number(n@),
        Json::Text(s) => JsonModel::Text(s@),
        Json::Array(v) => JsonModel::Array(items_of(v, v@.len())),
        Json::Object(v) => JsonModel::Object(members_of(v, v@.len())),
    }
}

/// The models of the first `n` items.
pub open spec fn items_of(v: Vec<Json>, n: nat) -> Seq<JsonModel>
    decreases v, n,
{
    if n == 0 || n > v@.len() {
        Seq::empty()
    } else {
        items_of(v, (n - 1) as nat).push(model_of(v@[n - 1]))
    }
}

/// The members that the first `n` entries give.
pub open spec fn members_of(v: Vec<(String, Json)>, n: nat) -> Map<Seq<char>, JsonModel>
    decreases v, n,
{
    if n == 0 || n > v@.len() {
        Map::empty()
    } else {
        members_of(v, (n - 1) as nat).insert(v@[n - 1].0@, model_of(v@[n - 1].1))
    }
}

impl View for Json {
    type V = JsonModel;

    open spec fn view(&self) -> JsonModel {
        model_of(*self)
    }
}

/// The member `key` of an object.
pub open spec fn member(j: JsonModel, key: Seq<char>) -> Option<JsonModel> {
    match j {
        JsonModel::Object(m) => if m.contains_key(key) {
            Some(m[key])
        } else {
            None
        },
        _ => None,
    }
}

/// The member that `path` leads to from the value, one key after the other.
pub open spec fn member_at(j: JsonModel, path: Seq<Seq<char>>) -> Option<JsonModel>
    decreases path.len(),
{
    if path.len() == 0 {
        Some(j)
    } else {
        match member_at(j, path.drop_last()) {
            Some(inner) => member(inner, path.last()),
            None => None,
        }
    }
}

/// The text that the value is.
pub open spec fn text_in(j: Option<JsonModel>) -> Option<Seq<char>> {
    match j {
        Some(JsonModel::Text(s)) => Some(s),
        _ => None,
    }
}

/// The text that the member `key` is.
pub open spec fn text_member(j: JsonModel, key: Seq<char>) -> Option<Seq<char>> {
    text_in(member(j, key))
}

/// The natural number that the value is.
pub open spec fn count_in(j: Option<JsonModel>) -> Option<u64> {
    match j {
        Some(JsonModel::Number(NumberModel::PosInt(n))) => Some(n),
        _ => None,
    }
}

/// The items of the array that the value is.
pub open spec fn items_in(j: Option<JsonModel>) -> Option<Seq<JsonModel>> {
    match j {
        Some(JsonModel::Array(items)) => Some(items),
        _ => None,
    }
}

/// The items of the array that the value is, none where it is no array.
pub open spec fn items_or_none(j: Option<JsonModel>) -> Seq<JsonModel> {
    match j {
        Some(JsonModel::Array(items)) => items,
        _ => Seq::empty(),
    }
}

/// The model of an optional value.
pub open spec fn opt_model(j: Option<&Json>) -> Option<JsonModel> {
    match j {
        Some(j) => Some(j@),
        None => None,
    }
}

proof fn lemma_members_skip(v: Vec<(String, Json)>, i: nat, n: nat, key: Seq<char>)
    requires
        i <= n <= v@.len(),
        forall|j: int| i <= j < n ==> (#[trigger] v@[j]).0@ != key,
    ensures
        members_of(v, n).contains_key(key) == members_of(v, i).contains_key(key),
        members_of(v, i).contains_key(key) ==> members_of(v, n)[key] == members_of(v, i)[key],
    decreases n - i,
{
    if i < n {
        lemma_members_skip(v, i, (n - 1) as nat, key);
    }
}

proof fn lemma_items(v: Vec<Json>, n: nat)
    requires
        n <= v@.len(),
    ensures
        items_of(v, n).len() == n,
        forall|i: int| 0 <= i < n ==> #[trigger] items_of(v, n)[i] == v@[i]@,
    decreases n,
{
    if n > 0 {
        lemma_items(v, (n - 1) as nat);
    }
}

proof fn lemma_items_of_prefix(v: Vec<Json>, w: Vec<Json>, n: nat)
    requires
        n <= v@.len(),
        n <= w@.len(),
        forall|i: int| 0 <= i < n ==> #[trigger] v@[i]@ == w@[i]@,
    ensures
        items_of(v, n) == items_of(w, n),
    decreases n,
{
    if n > 0 {
        lemma_items_of_prefix(v, w, (n - 1) as nat);
        assert(v@[n - 1]@ == w@[n - 1]@);
    }
}

proof fn lemma_members_of_prefix(v: Vec<(String, Json)>, w: Vec<(String, Json)>, n: nat)
    requires
        n <= v@.len(),
        n <= w@.len(),
        forall|i: int| 0 <= i < n ==> (#[trigger] v@[i]).0@ == w@[i].0@ && v@[i].1@ == w@[i].1@,
    ensures
        members_of(v, n) == members_of(w, n),
    decreases n,
{
    if n > 0 {
        lemma_members_of_prefix(v, w, (n - 1) as nat);
        assert(v@[n - 1].0@ == w@[n - 1].0@);
    }
}

impl Json {
    /// The member `key`, where the value is an object that has it.
    pub fn get(&self, key: &str) -> (r: Option<&Json>)
        ensures
            opt_model(r) == member(self@, key@),
    {
        match self {
            Json::Object(v) => {
                let mut i: usize = v.len();
                while i > 0
                    invariant
                        i <= v@.len(),
                        self matches Json::Object(w) && w == *v,
                        forall|j: int| i <= j < v@.len() ==> (#[trigger] v@[j]).0@ != key@,
                    decreases i,
                {
                    if text::same(v[i - 1].0.as_str(), key) {
                        proof {
                            lemma_members_skip(*v, i as nat, v@.len(), key@);
                        }
                        return Some(&v[i - 1].1);
                    }
                    i -= 1;
                }
                proof {
                    lemma_members_skip(*v, 0, v@.len(), key@);
                }
                None
            },
            _ => None,
        }
    }

    /// The text, where the value is one.
    pub fn as_text(&self) -> (r: Option<&str>)
        ensures
            match text_in(Some(self@)) {
                Some(s) => r matches Some(t) && t@ == s,
                None => r is None,
            },
    {
        match self {
            Json::Text(s) => Some(s.as_str()),
            _ => None,
        }
    }

    /// The natural number, where the value is one.
    pub fn as_count(&self) -> (r: Option<u64>)
        ensures
            r == count_in(Some(self@)),
    {
        match self {
            Json::Number(Number::PosInt(n)) => Some(*n),
            _ => None,
        }
    }

    /// The items, where the value is an array.
    pub fn as_items(&self) -> (r: Option<&Vec<Json>>)
        ensures
            match items_in(Some(self@)) {
                Some(items) => r matches Some(v) && models(v@) == items,
                None => r is None,
            },
    {
        match self {
            Json::Array(v) => {
                proof {
                    items_are_models(*v);
                }
                Some(v)
            },
            _ => None,
        }
    }

    /// The items of the member `key`, where that is an array.
    pub fn get_items(&self, key: &str) -> (r: Option<&Vec<Json>>)
        ensures
            match items_in(member(self@, key@)) {
                Some(items) => r matches Some(v) && models(v@) == items,
                None => r is None,
            },
    {
        match self.get(key) {
            Some(value) => value.as_items(),
            None => None,
        }
    }

    /// The truth value, where the value is one.
    pub fn as_truth(&self) -> (r: Option<bool>)
        ensures
            r == (match self@ {
                JsonModel::Bool(b) => Some(b),
                _ => None,
            }),
    {
        match self {
            Json::Bool(b) => Some(*b),
            _ => None,
        }
    }

    /// A copy of the text of the member `key`.
    pub fn get_text(&self, key: &str) -> (r: Option<String>)
        ensures
            text::opt_text(r) == text_member(self@, key@),
    {
        match self.get(key) {
            Some(j) => match j.as_text() {
                Some(s) => Some(s.to_owned()),
                None => None,
            },
            None => None,
        }
    }

    /// A copy.
    pub fn copy(&self) -> (r: Json)
        ensures
            r@ == self@,
        decreases self,
    {
        match self {
            Json::Null => Json::Null,
            Json::Bool(b) => Json::Bool(*b),
            Json::Number(n) => Json::Number(n.copy()),
            Json::Text(s) => Json::Text(s.clone()),
            Json::Array(v) => {
                let mut out: Vec<Json> = Vec::new();
                let mut i: usize = 0;
                while i < v.len()
                    invariant
                        i <= v@.len(),
                        i == out@.len(),
                        self matches Json::Array(w) && w == *v,
                        forall|j: int| 0 <= j < i ==> #[trigger] out@[j]@ == v@[j]@,
                    decreases v@.len() - i,
                {
                    let item = v[i].copy();
                    out.push(item);
                    i += 1;
                }
                proof {
                    lemma_items_of_prefix(out, *v, v@.len());
                }
                Json::Array(out)
            },
            Json::Object(v) => {
                let mut out: Vec<(String, Json)> = Vec::new();
                let mut i: usize = 0;
                while i < v.len()
                    invariant
                        i <= v@.len(),
                        i == out@.len(),
                        self matches Json::Object(w) && w == *v,
                        forall|j: int|
                            0 <= j < i ==> (#[trigger] out@[j]).0@ == v@[j].0@ && out@[j].1@
                                == v@[j].1@,
                    decreases v@.len() - i,
                {
                    let value = v[i].1.copy();
                    out.push((v[i].0.clone(), value));
                    i += 1;
                }
                proof {
                    lemma_members_of_prefix(out, *v, v@.len());
                }
                Json::Object(out)
            },
        }
    }

    /// The text as a value.
    pub fn text(s: &str) -> (r: Json)
        ensures
            r@ == JsonModel::Text(s@),
    {
        Json::Text(s.to_owned())
    }

    /// The natural number as a value.
    pub fn count(n: u64) -> (r: Json)
        ensures
            r@ == JsonModel::Number(NumberModel::PosInt(n)),
    {
        Json::Number(Number::PosInt(n))
    }

    /// The texts as an array.
    pub fn text_array(v: &[String]) -> (r: Json)
        ensures
            r@ == JsonModel::Array(text_items(text::texts(v@))),
    {
        let mut out: Vec<Json> = Vec::new();
        let mut i: usize = 0;
        while i < v.len()
            invariant
                i <= v@.len(),
                i == out@.len(),
                forall|j: int| 0 <= j < i ==> #[trigger] out@[j]@ == JsonModel::Text(v@[j]@),
            decreases v@.len() - i,
        {
            out.push(Json::text(v[i].as_str()));
            i += 1;
        }
        proof {
            lemma_items(out, v@.len());
            assert(items_of(out, v@.len()) == text_items(text::texts(v@)));
        }
        Json::Array(out)
    }
}

/// The models of the values.
pub open spec fn models(v: Seq<Json>) -> Seq<JsonModel> {
    Seq::new(v.len(), |i: int| v[i]@)
}

/// The items of an array are the models of its values.
pub proof fn items_are_models(v: Vec<Json>)
    ensures
        items_of(v, v@.len()) == models(v@),
{
    lemma_items(v, v@.len());
    assert(items_of(v, v@.len()) =~= models(v@));
}

/// Copies of the values.
pub fn copy_items(v: &Vec<Json>) -> (r: Vec<Json>)
    ensures
        models(r@) == models(v@),
        models(r@) == items_of(*v, v@.len()),
{
    let mut out: Vec<Json> = Vec::new();
    let mut i: usize = 0;
    while i < v.len()
        invariant
            i <= v@.len(),
            i == out@.len(),
            forall|j: int| 0 <= j < i ==> #[trigger] out@[j]@ == v@[j]@,
        decreases v@.len() - i,
    {
        let item = v[i].copy();
        out.push(item);
        i += 1;
    }
    proof {
        assert(models(out@) =~= models(v@));
        items_are_models(*v);
    }
    out
}

/// The texts as values.
pub open spec fn text_items(v: Seq<Seq<char>>) -> Seq<JsonModel> {
    Seq::new(v.len(), |i: int| JsonModel::Text(v[i]))
}

/// An object that is being built.
pub struct ObjectBuilder {
    pub entries: Vec<(String, Json)>,
}

impl View for ObjectBuilder {
    type V = Map<Seq<char>, JsonModel>;

    open spec fn view(&self) -> Map<Seq<char>, JsonModel> {
        members_of(self.entries, self.entries@.len())
    }
}

impl ObjectBuilder {
    /// An object without members.
    pub fn new() -> (r: ObjectBuilder)
        ensures
            r@ == Map::<Seq<char>, JsonModel>::empty(),
    {
        ObjectBuilder { entries: Vec::new() }
    }

    /// The object with the member `key` set to `value`.
    pub fn with(self, key: &str, value: Json) -> (r: ObjectBuilder)
        ensures
            r@ == self@.insert(key@, value@),
    {
        let mut entries = self.entries;
        let ghost before = entries;
        entries.push((key.to_owned(), value));
        proof {
            lemma_members_of_prefix(entries, before, before@.len());
        }
        ObjectBuilder { entries }
    }

    /// The object as a value.
    pub fn build(self) -> (r: Json)
        ensures
            r@ == JsonModel::Object(self@),
    {
        Json::Object(self.entries)
    }
}

/// `serde_json::Value`, which is not looked into.
#[verifier::external_type_specification]
#[verifier::external_body]
pub struct ExValue(serde_json::Value);

/// What `serde_json::from_str::<serde_json::Value>` makes of a text: the value that it spells, or the
/// message of the error.
pub uninterp spec fn json_parsed(text: Seq<char>) -> Result<JsonModel, Seq<char>>;

/// The text that `serde_json::Value::to_string` writes for a value.
pub uninterp spec fn json_rendered(j: JsonModel) -> Seq<char>;

/// The same value, variant for variant, out of a `serde_json::Value`; a double is held as the text
/// that `serde_json::Number` prints for it.
#[verifier::external_body]
fn from_value(value: serde_json::Value) -> Json {
    match value {
        serde_json::Value::Null => Json::Null,
        serde_json::Value::Bool(b) => Json::Bool(b),
        serde_json::Value::Number(n) => Json::Number(match (n.as_u64(), n.as_i64()) {
            (Some(u), _) => Number::PosInt(u),
            (None, Some(i)) => Number::NegInt(i),
            (None, None) => Number::Float(n.to_string()),
        }),
        serde_json::Value::String(s) => Json::Text(s),
        serde_json::Value::Array(v) => Json::Array(v.into_iter().map(from_value).collect()),
        serde_json::Value::Object(m) => {
            Json::Object(m.into_iter().map(|(k, v)| (k, from_value(v))).collect())
        },
    }
}

/// The same value, variant for variant, as a `serde_json::Value`.
#[verifier::external_body]
fn to_value(j: &Json) -> serde_json::Value {
    match j {
        Json::Null => serde_json::Value::Null,
        Json::Bool(b) => serde_json::Value::Bool(*b),
        Json::Number(Number::PosInt(n)) => serde_json::Value::from(*n),
        Json::Number(Number::NegInt(n)) => serde_json::Value::from(*n),
        Json::Number(Number::Float(s)) => {
            serde_json::Number::from_f64(s.parse().unwrap_or_default()).into()
        },
        Json::Text(s) => serde_json::Value::from(s.as_str()),
        Json::Array(v) => serde_json::Value::Array(v.iter().map(to_value).collect()),
        Json::Object(v) => v.iter().map(|(k, j)| (k.clone(), to_value(j))).collect(),
    }
}

/// Whether the value holds no double, writes every negative integer as one, and is nested at most
/// `depth` deep.
pub open spec fn is_exact(j: JsonModel, depth: nat) -> bool
    decreases depth,
{
    match j {
        JsonModel::Number(NumberModel::NegInt(n)) => n < 0,
        JsonModel::Number(NumberModel::Float(_)) => false,
        JsonModel::Array(items) => depth > 0 && forall|i: int|
            0 <= i < items.len() ==> is_exact(#[trigger] items[i], (depth - 1) as nat),
        JsonModel::Object(members) => depth > 0 && forall|k: Seq<char>|
            members.contains_key(k) ==> is_exact(#[trigger] members[k], (depth - 1) as nat),
        _ => true,
    }
}

/// Whether the text spells the value.
pub open spec fn reads_as(text: Seq<char>, j: JsonModel) -> bool {
    json_parsed(text) == Ok::<JsonModel, Seq<char>>(j)
}

/// What `serde_json::from_slice::<serde_json::Value>` makes of bytes: the value that they spell, or the
/// message of the error.
pub uninterp spec fn json_bytes_parsed(data: Seq<u8>) -> Result<JsonModel, Seq<char>>;

/// `serde_json::from_slice::<serde_json::Value>`, with the value or the message of the error.
#[verifier::external_body]
fn parse_bytes(data: &[u8]) -> (r: Result<Json, String>)
    ensures
        match json_bytes_parsed(data@) {
            Ok(m) => r matches Ok(j) && j@ == m,
            Err(e) => r matches Err(x) && x@ == e,
        },
{
    match serde_json::from_slice::<serde_json::Value>(data) {
        Ok(value) => Ok(from_value(value)),
        Err(e) => Err(e.to_string()),
    }
}

/// The model of an optional value.
pub open spec fn opt_json(j: Option<Json>) -> Option<JsonModel> {
    match j {
        Some(j) => Some(j@),
        None => None,
    }
}

/// `serde_json::from_str::<serde_json::Value>`, with the value or the message of the error.
#[verifier::external_body]
fn parse_value(text: &str) -> (r: Result<Json, String>)
    ensures
        match json_parsed(text@) {
            Ok(m) => r matches Ok(j) && j@ == m,
            Err(e) => r matches Err(x) && x@ == e,
        },
{
    match serde_json::from_str::<serde_json::Value>(text) {
        Ok(value) => Ok(from_value(value)),
        Err(e) => Err(e.to_string()),
    }
}

/// `serde_json::Value::to_string`. A value without doubles that is nested at most 120 deep reads back
/// as it was written: the reader takes 127 levels.
#[verifier::external_body]
fn render_value(j: &Json) -> (r: String)
    ensures
        r@ == json_rendered(j@),
        is_exact(j@, 120) ==> reads_as(r@, j@),
{
    to_value(j).to_string()
}

impl Json {
    /// The value that the text spells, or what is wrong with it.
    pub fn read(text: &str) -> (r: Result<Json, String>)
        ensures
            match json_parsed(text@) {
                Ok(m) => r matches Ok(j) && j@ == m,
                Err(e) => r matches Err(x) && x@ == e,
            },
    {
        parse_value(text)
    }

    /// The value that the bytes spell, or what is wrong with them.
    pub fn read_bytes(data: &[u8]) -> (r: Result<Json, String>)
        ensures
            match json_bytes_parsed(data@) {
                Ok(m) => r matches Ok(j) && j@ == m,
                Err(e) => r matches Err(x) && x@ == e,
            },
    {
        parse_bytes(data)
    }

    /// The value in compact JSON. It reads back as it was written, where it holds no double and is
    /// not nested too deep.
    pub fn write(&self) -> (r: String)
        ensures
            r@ == json_rendered(self@),
            is_exact(self@, 120) ==> reads_as(r@, self@),
    {
        render_value(self)
    }
}

/// A member of an object is what the last entry with its key says.
pub proof fn the_last_entry_counts(v: Vec<(String, Json)>, n: nat, key: Seq<char>)
    requires
        n <= v@.len(),
    ensures
        if members_of(v, n).contains_key(key) {
            exists|k: int|
                0 <= k < n && (#[trigger] v@[k]).0@ == key && members_of(v, n)[key] == v@[k].1@
                    && forall|j: int| k < j < n ==> (#[trigger] v@[j]).0@ != key
        } else {
            forall|j: int| 0 <= j < n ==> (#[trigger] v@[j]).0@ != key
        },
    decreases n,
{
    if n > 0 {
        let m = (n - 1) as nat;
        the_last_entry_counts(v, m, key);
        if v@[m as int].0@ == key {
            assert(members_of(v, n)[key] == v@[m as int].1@);
        } else if members_of(v, m).contains_key(key) {
            let k = choose|k: int|
                0 <= k < m && (#[trigger] v@[k]).0@ == key && members_of(v, m)[key] == v@[k].1@
                    && forall|j: int| k < j < m ==> (#[trigger] v@[j]).0@ != key;
            assert(v@[k].0@ == key);
        }
    }
}

/// A member is found in an object that has it, and in nothing else. A value is a text, a natural number
/// or a list just where it was written as one.
pub proof fn values_are_what_they_are(
    members: Map<Seq<char>, JsonModel>,
    j: JsonModel,
    key: Seq<char>,
    s: Seq<char>,
    n: u64,
    items: Seq<JsonModel>,
)
    ensures
        members.contains_key(key) ==> member(JsonModel::Object(members), key) == Some(members[key]),
        member(j, key) is Some ==> j is Object && j->Object_0.contains_pair(key, member(j, key)->0),
        text_in(Some(j)) == Some(s) <==> j == JsonModel::Text(s),
        count_in(Some(j)) == Some(n) <==> j == JsonModel::Number(NumberModel::PosInt(n)),
        items_in(Some(j)) == Some(items) <==> j == JsonModel::Array(items),
        items_or_none(Some(JsonModel::Array(items))) == items,
        !(j is Array) ==> items_or_none(Some(j)).len() == 0,
        text_member(j, key) == Some(s) <==> member(j, key) == Some(JsonModel::Text(s)),
{
}

/// A path leads to a member one key after the other, and nowhere where a key is missing.
pub proof fn paths_lead_from_member_to_member(j: JsonModel, path: Seq<Seq<char>>, key: Seq<char>)
    ensures
        member_at(j, Seq::empty()) == Some(j),
        member_at(j, path) matches Some(inner) ==> member_at(j, path.push(key)) == member(inner, key),
        member_at(j, path) is None ==> member_at(j, path.push(key)) is None,
        member_at(j, seq![key]) == member(j, key),
{
    assert(path.push(key).drop_last() == path);
    assert(seq![key].drop_last() == Seq::<Seq<char>>::empty());
    reveal_with_fuel(member_at, 2);
}

/// What a list says, it says item by item: each stands in its place, and none is added or left out.
pub proof fn items_keep_their_places(v: Seq<Json>, s: Seq<Seq<char>>, i: int)
    ensures
        models(v).len() == v.len(),
        0 <= i < v.len() ==> models(v)[i] == v[i]@,
        text_items(s).len() == s.len(),
        0 <= i < s.len() ==> text_items(s)[i] == JsonModel::Text(s[i]),
{
}

} // verus!
