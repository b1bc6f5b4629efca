//! A JSON document as the library reads it, and the lookups made in the
//! credentials file, the usage reply and the configuration file.

use vstd::prelude::*;
use vstd::string::*;
use vstd::arithmetic::div_mod::lemma_fundamental_div_mod_converse;
use crate::text::same_text;
use crate::iso8601::{iso8601_evaluate, iso8601_overflows, iso8601_seconds, iso8601_to_epoch};

verus! {

/// A JSON value. An object lists its members in the order in which the
/// reader of the document yields them.
pub enum Json {
    Null,
    Bool(bool),
    /// A number, with its value when it is an integer that fits in `i64`
    /// (`None` for fractions, exponents and larger integers).
    Number(Option<i64>),
    Str(String),
    Array(Vec<Json>),
    Object(Vec<(String, Json)>),
}

/// Position of the first member named `key` among `members[i..]`.
pub open spec fn member_index(members: Seq<(String, Json)>, key: Seq<char>, i: int) -> Option<int>
    decreases members.len() - i,
{
    if i < 0 || i >= members.len() {
        None
    } else if members[i].0@ == key {
        Some(i)
    } else {
        member_index(members, key, i + 1)
    }
}

/// The value of member `key` of an object; `None` for a missing member or a value that is not an object.
pub open spec fn json_get(v: Json, key: Seq<char>) -> Option<Json> {
    match v {
        Json::Object(members) => match member_index(members@, key, 0) {
            Some(i) => Some(members@[i].1),
            None => None,
        },
        _ => None,
    }
}

/// The first string stored under `key`, searching depth first: in an object,
/// its own member `key` when that is a string, else each member's value in
/// order; in an array, each element in order.
pub open spec fn find_string(v: Json, key: Seq<char>) -> Option<Seq<char>>
    decreases v, 0int,
{
    match v {
        Json::Object(members) => match member_index(members@, key, 0) {
            Some(i) => match members@[i].1 {
                Json::Str(s) => Some(s@),
                _ => find_string_in_members(members@, key, 0),
            },
            None => find_string_in_members(members@, key, 0),
        },
        Json::Array(items) => find_string_in_items(items@, key, 0),
        _ => None,
    }
}

/// [`find_string`] over the values of `members[i..]`, the first hit in order.
pub open spec fn find_string_in_members(members: Seq<(String, Json)>, key: Seq<char>, i: int) -> Option<
    Seq<char>,
>
    decreases members, members.len() - i,
{
    if i < 0 || i >= members.len() {
        None
    } else {
        match find_string(members[i].1, key) {
            Some(s) => Some(s),
            None => find_string_in_members(members, key, i + 1),
        }
    }
}

/// [`find_string`] over `items[i..]`, the first hit in order.
pub open spec fn find_string_in_items(items: Seq<Json>, key: Seq<char>, i: int) -> Option<Seq<char>>
    decreases items, items.len() - i,
{
    if i < 0 || i >= items.len() {
        None
    } else {
        match find_string(items[i], key) {
            Some(s) => Some(s),
            None => find_string_in_items(items, key, i + 1),
        }
    }
}

/// Position of the first member named `key`.
fn member_position(members: &Vec<(String, Json)>, key: &str) -> (r: Option<usize>)
    ensures
        match r {
            Some(i) => member_index(members@, key@, 0) == Some(i as int) && i < members@.len(),
            None => member_index(members@, key@, 0) is None,
        },
{
    let mut i: usize = 0;
    while i < members.len()
        invariant
            i <= members@.len(),
            member_index(members@, key@, 0) == member_index(members@, key@, i as int),
        decreases members@.len() - i,
    {
        if same_text(members[i].0.as_str(), key) {
            return Some(i);
        }
        i = i + 1;
    }
    None
}

/// The value of member `key` of an object (`Value::get` with a string index).
pub fn json_member<'a>(v: &'a Json, key: &str) -> (r: Option<&'a Json>)
    ensures
        match r {
            Some(x) => json_get(*v, key@) == Some(*x),
            None => json_get(*v, key@) is None,
        },
{
    match v {
        Json::Object(members) => match member_position(members, key) {
            Some(i) => Some(&members[i].1),
            None => None,
        },
        _ => None,
    }
}

/// The first string stored under `key` anywhere in `v`, as [`find_string`] describes.
pub fn find_string_key(v: &Json, key: &str) -> (r: Option<String>)
    ensures
        match r {
            Some(s) => find_string(*v, key@) == Some(s@),
            None => find_string(*v, key@) is None,
        },
    decreases v,
{
    match v {
        Json::Object(members) => {
            match member_position(members, key) {
                Some(i) => {
                    if let Json::Str(s) = &members[i].1 {
                        return Some(s.clone());
                    }
                },
                None => {},
            }
            let mut i: usize = 0;
            while i < members.len()
                invariant
                    i <= members@.len(),
                    find_string(*v, key@) == find_string_in_members(members@, key@, i as int),
                    *v == Json::Object(*members),
                decreases members@.len() - i,
            {
                assert(decreases_to!(*v => members@[i as int].1));
                match find_string_key(&members[i].1, key) {
                    Some(s) => {
                        return Some(s);
                    },
                    None => {},
                }
                i = i + 1;
            }
            None
        },
        Json::Array(items) => {
            let mut i: usize = 0;
            while i < items.len()
                invariant
                    i <= items@.len(),
                    find_string(*v, key@) == find_string_in_items(items@, key@, i as int),
                    *v == Json::Array(*items),
                decreases items@.len() - i,
            {
                assert(decreases_to!(*v => items@[i as int]));
                match find_string_key(&items[i], key) {
                    Some(s) => {
                        return Some(s);
                    },
                    None => {},
                }
                i = i + 1;
            }
            None
        },
        _ => None,
    }
}

/// The text of a string value, as `Value::as_str` gives it.
pub open spec fn text_of(v: Option<Json>) -> Option<Seq<char>> {
    match v {
        Some(Json::Str(s)) => Some(s@),
        _ => None,
    }
}

/// The access token of a credentials document: the first string under
/// `accessToken` anywhere in it, else the first under `access_token`.
pub open spec fn credentials_token(credentials: Json) -> Option<Seq<char>> {
    match find_string(credentials, "accessToken"@) {
        Some(t) => Some(t),
        None => find_string(credentials, "access_token"@),
    }
}

/// A token under `accessToken` is the one used, wherever `access_token` stands.
pub proof fn lemma_token_prefers_access_token(credentials: Json, t: Seq<char>)
    requires
        find_string(credentials, "accessToken"@) == Some(t),
    ensures
        credentials_token(credentials) == Some(t),
{
}

/// Without any `accessToken` string, the first `access_token` string is used;
/// without either there is no token.
pub proof fn lemma_token_falls_back_to_access_token(credentials: Json)
    requires
        find_string(credentials, "accessToken"@) is None,
    ensures
        credentials_token(credentials) == find_string(credentials, "access_token"@),
{
}

/// The access token of a credentials document, as [`credentials_token`] describes.
pub fn access_token(credentials: &Json) -> (r: Result<String, String>)
    ensures
        match credentials_token(*credentials) {
            Some(t) => r matches Ok(x) && x@ == t,
            None => r matches Err(e) && e@ == "no accessToken in credentials"@,
        },
{
    if let Some(t) = find_string_key(credentials, "accessToken") {
        return Ok(t);
    }
    if let Some(t) = find_string_key(credentials, "access_token") {
        return Ok(t);
    }
    Err(String::from_str("no accessToken in credentials"))
}

/// The monitor saved in the configuration document: its string member `monitor_device`.
pub fn config_monitor_device(config: &Json) -> (r: Option<String>)
    ensures
        match r {
            Some(d) => text_of(json_get(*config, "monitor_device"@)) == Some(d@),
            None => text_of(json_get(*config, "monitor_device"@)) is None,
        },
{
    match json_member(config, "monitor_device") {
        Some(Json::Str(s)) => Some(s.clone()),
        _ => None,
    }
}

/// The usage window of a usage reply: its member `five_hour`.
pub fn usage_window(reply: &Json) -> (r: Result<&Json, String>)
    ensures
        match json_get(*reply, "five_hour"@) {
            Some(w) => r matches Ok(x) && *x == w,
            None => r matches Err(e) && e@ == "no five_hour field"@,
        },
{
    match json_member(reply, "five_hour") {
        Some(w) => Ok(w),
        None => Err(String::from_str("no five_hour field")),
    }
}

/// Seconds since the Unix epoch that a value gives: an integer as it is, or
/// divided by 1000 when above 10_000_000_000 (taken as milliseconds); a
/// string read as an ISO 8601 timestamp.
pub open spec fn epoch_value(v: Json) -> Option<int> {
    match v {
        Json::Number(Some(n)) => Some(
            if n > 10_000_000_000 {
                n / 1000
            } else {
                n as int
            },
        ),
        Json::Str(s) => iso8601_seconds(s@),
        _ => None,
    }
}

/// Reading the value as a timestamp leaves the range of `i64`.
pub open spec fn epoch_overflows(v: Json) -> bool {
    match v {
        Json::Str(s) => iso8601_overflows(s@),
        _ => false,
    }
}

/// Seconds since the Unix epoch that a value gives, as [`epoch_value`] describes.
pub fn extract_epoch(v: &Json) -> (r: Option<i64>)
    requires
        !epoch_overflows(*v),
    ensures
        match r {
            Some(t) => epoch_value(*v) == Some(t as int),
            None => epoch_value(*v) is None,
        },
{
    match v {
        Json::Number(Some(n)) => {
            if *n > 10_000_000_000 {
                Some(*n / 1000)
            } else {
                Some(*n)
            }
        },
        Json::Str(s) => match iso8601_to_epoch(s.as_str()) {
            Ok(t) => Some(t),
            Err(_) => None,
        },
        _ => None,
    }
}

/// The same instant given in milliseconds or in seconds reads alike: for
/// `t` seconds with 10_000_000 < t <= 10_000_000_000 and any `r < 1000`, the
/// number `t * 1000 + r` reads as `t`, and so does `t` itself.
pub proof fn lemma_epoch_milliseconds(t: int, r: int)
    requires
        10_000_000 < t <= 10_000_000_000,
        0 <= r < 1000,
    ensures
        epoch_value(Json::Number(Some((t * 1000 + r) as i64))) == Some(t),
        epoch_value(Json::Number(Some(t as i64))) == Some(t),
{
    assert(10_000_000_000 < t * 1000 + r <= 10_000_000_000_999) by (nonlinear_arith)
        requires
            10_000_000 < t <= 10_000_000_000,
            0 <= r < 1000,
    ;
    lemma_fundamental_div_mod_converse(t * 1000 + r, 1000, t, r);
}

/// Reading a timestamp left the range of `i64`.
pub struct EpochOverflow;

/// What member `key` of the usage window gives: `Err` when reading it
/// overflows, else the timestamp when there is one.
pub open spec fn key_epoch(window: Json, key: Seq<char>) -> Result<Option<int>, EpochOverflow> {
    match json_get(window, key) {
        Some(v) => if epoch_overflows(v) {
            Err(EpochOverflow)
        } else {
            Ok(epoch_value(v))
        },
        None => Ok(None),
    }
}

/// The reset time of a usage window: the first of its members `resets_at`,
/// `reset_at` and `reset` that gives a timestamp; `Err` when reading one of
/// them on the way overflows.
pub open spec fn reset_time(window: Json) -> Result<Option<int>, EpochOverflow> {
    match key_epoch(window, "resets_at"@) {
        Ok(None) => match key_epoch(window, "reset_at"@) {
            Ok(None) => key_epoch(window, "reset"@),
            other => other,
        },
        other => other,
    }
}

/// `resets_at` is read first: when it gives timestamp `t`, that is the reset time.
pub proof fn lemma_reset_time_first_key(window: Json, t: int)
    requires
        json_get(window, "resets_at"@) matches Some(v) && !epoch_overflows(v) && epoch_value(v)
            == Some(t),
    ensures
        reset_time(window) == Ok::<Option<int>, EpochOverflow>(Some(t)),
{
}

/// When `resets_at` is missing or gives no timestamp, `reset_at` is read:
/// when it gives timestamp `t`, that is the reset time.
pub proof fn lemma_reset_time_second_key(window: Json, t: int)
    requires
        json_get(window, "resets_at"@) matches Some(v) ==> !epoch_overflows(v) && epoch_value(
            v,
        ) is None,
        json_get(window, "reset_at"@) matches Some(v) && !epoch_overflows(v) && epoch_value(v)
            == Some(t),
    ensures
        reset_time(window) == Ok::<Option<int>, EpochOverflow>(Some(t)),
{
}

/// When neither `resets_at` nor `reset_at` gives a timestamp, `reset` is read:
/// when it gives timestamp `t`, that is the reset time.
pub proof fn lemma_reset_time_third_key(window: Json, t: int)
    requires
        json_get(window, "resets_at"@) matches Some(v) ==> !epoch_overflows(v) && epoch_value(
            v,
        ) is None,
        json_get(window, "reset_at"@) matches Some(v) ==> !epoch_overflows(v) && epoch_value(
            v,
        ) is None,
        json_get(window, "reset"@) matches Some(v) && !epoch_overflows(v) && epoch_value(v)
            == Some(t),
    ensures
        reset_time(window) == Ok::<Option<int>, EpochOverflow>(Some(t)),
{
}

/// When none of the three members gives a timestamp, there is no reset time.
pub proof fn lemma_reset_time_none(window: Json)
    requires
        json_get(window, "resets_at"@) matches Some(v) ==> !epoch_overflows(v) && epoch_value(
            v,
        ) is None,
        json_get(window, "reset_at"@) matches Some(v) ==> !epoch_overflows(v) && epoch_value(
            v,
        ) is None,
        json_get(window, "reset"@) matches Some(v) ==> !epoch_overflows(v) && epoch_value(v) is None,
    ensures
        reset_time(window) == Ok::<Option<int>, EpochOverflow>(None),
{
}

proof fn lemma_members_first_hit(members: Seq<(String, Json)>, key: Seq<char>, i: int, j: int, s: Seq<char>)
    requires
        0 <= i <= j < members.len(),
        find_string(members[j].1, key) == Some(s),
        forall|l: int| 0 <= l < j ==> find_string(#[trigger] members[l].1, key) is None,
    ensures
        find_string_in_members(members, key, i) == Some(s),
    decreases j - i,
{
    if i < j {
        assert(find_string(members[i].1, key) is None);
        lemma_members_first_hit(members, key, i + 1, j, s);
    }
}

proof fn lemma_items_first_hit(items: Seq<Json>, key: Seq<char>, i: int, j: int, s: Seq<char>)
    requires
        0 <= i <= j < items.len(),
        find_string(items[j], key) == Some(s),
        forall|l: int| 0 <= l < j ==> find_string(#[trigger] items[l], key) is None,
    ensures
        find_string_in_items(items, key, i) == Some(s),
    decreases j - i,
{
    if i < j {
        assert(find_string(items[i], key) is None);
        lemma_items_first_hit(items, key, i + 1, j, s);
    }
}

/// An object's own member `key`, when it is a string, is the answer: the
/// first member named `key` is the one read.
pub proof fn lemma_find_string_own_member(members: Vec<(String, Json)>, key: Seq<char>, j: int)
    requires
        0 <= j < members@.len(),
        members@[j].0@ == key,
        members@[j].1 is Str,
        forall|l: int| 0 <= l < j ==> (#[trigger] members@[l]).0@ != key,
    ensures
        find_string(Json::Object(members), key) == Some(members@[j].1->Str_0@),
{
    lemma_member_index_first(members@, key, 0, j);
}

proof fn lemma_member_index_first(members: Seq<(String, Json)>, key: Seq<char>, i: int, j: int)
    requires
        0 <= i <= j < members.len(),
        members[j].0@ == key,
        forall|l: int| 0 <= l < j ==> (#[trigger] members[l]).0@ != key,
    ensures
        member_index(members, key, i) == Some(j),
    decreases j - i,
{
    if i < j {
        assert(members[i].0@ != key);
        lemma_member_index_first(members, key, i + 1, j);
    }
}

/// When the object's own member `key` is missing or not a string, the
/// members' values are searched in order and the earliest hit wins: member
/// `j` holds string `s` under `key` and no member before it holds one.
pub proof fn lemma_find_string_member_order(
    members: Vec<(String, Json)>,
    key: Seq<char>,
    j: int,
    s: Seq<char>,
)
    requires
        0 <= j < members@.len(),
        forall|l: int| 0 <= l < members@.len() && (#[trigger] members@[l]).0@ == key ==> !(members@[l].1 is Str),
        find_string(members@[j].1, key) == Some(s),
        forall|l: int| 0 <= l < j ==> find_string(#[trigger] members@[l].1, key) is None,
    ensures
        find_string(Json::Object(members), key) == Some(s),
{
    lemma_members_first_hit(members@, key, 0, j, s);
    match member_index(members@, key, 0) {
        Some(i) => {
            lemma_member_index_in_range(members@, key, 0);
        },
        None => {},
    }
}

proof fn lemma_member_index_in_range(members: Seq<(String, Json)>, key: Seq<char>, i: int)
    requires
        0 <= i,
    ensures
        member_index(members, key, i) matches Some(k) ==> i <= k < members.len() && members[k].0@
            == key,
    decreases members.len() - i,
{
    if i < members.len() && members[i].0@ != key {
        lemma_member_index_in_range(members, key, i + 1);
    }
}

/// In an array the elements are searched in order and the earliest hit wins.
pub proof fn lemma_find_string_item_order(items: Vec<Json>, key: Seq<char>, j: int, s: Seq<char>)
    requires
        0 <= j < items@.len(),
        find_string(items@[j], key) == Some(s),
        forall|l: int| 0 <= l < j ==> find_string(#[trigger] items@[l], key) is None,
    ensures
        find_string(Json::Array(items), key) == Some(s),
{
    lemma_items_first_hit(items@, key, 0, j, s);
}

fn epoch_at_key(window: &Json, key: &str) -> (r: Result<Option<i64>, EpochOverflow>)
    ensures
        match r {
            Ok(Some(t)) => key_epoch(*window, key@) == Ok::<Option<int>, EpochOverflow>(Some(t as int)),
            Ok(None) => key_epoch(*window, key@) == Ok::<Option<int>, EpochOverflow>(None),
            Err(_) => key_epoch(*window, key@) is Err,
        },
{
    match json_member(window, key) {
        Some(v) => match v {
            Json::Str(s) => match iso8601_evaluate(s.as_str()) {
                Some(Ok(t)) => Ok(Some(t)),
                Some(Err(_)) => Ok(None),
                None => Err(EpochOverflow),
            },
            _ => Ok(extract_epoch(v)),
        },
        None => Ok(None),
    }
}

/// The reset time of a usage window, as [`reset_time`] describes.
pub fn reset_epoch(window: &Json) -> (r: Result<Option<i64>, EpochOverflow>)
    ensures
        match r {
            Ok(Some(t)) => reset_time(*window) == Ok::<Option<int>, EpochOverflow>(Some(t as int)),
            Ok(None) => reset_time(*window) == Ok::<Option<int>, EpochOverflow>(None),
            Err(_) => reset_time(*window) is Err,
        },
{
    match epoch_at_key(window, "resets_at") {
        Ok(None) => {},
        other => return other,
    }
    match epoch_at_key(window, "reset_at") {
        Ok(None) => {},
        other => return other,
    }
    epoch_at_key(window, "reset")
}

} // verus!
