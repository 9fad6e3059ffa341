//! Plugin calls: which plugin and method a request names, the arguments a
//! GET request passes in its query, the JSON body of a POST request, and the
//! errors reported at each step.
use vstd::prelude::*;
use vstd::utf8::{decode_utf8, valid_utf8};
use crate::text::{
    chars_find, chars_of, contains_seq, matches_at, decimal_digits, decimal_text, digit_char,
    lemma_split_on_concat, lemma_split_on_nonempty, lemma_split_on_pieces_lack_sep,
    lemma_split_on_single, split_chars, split_on, string_from_chars,
};

verus! {

/// The largest request body read for a POST call, in bytes.
pub const POST_BODY_LIMIT: usize = 8192;

pub open spec fn is_digit(c: char) -> bool {
    48 <= (c as int) <= 57
}

pub open spec fn all_digits(s: Seq<char>) -> bool {
    forall|i: int| 0 <= i < s.len() ==> is_digit(#[trigger] s[i])
}

/// The value of a string of decimal digits.
pub open spec fn digits_value(s: Seq<char>) -> int
    decreases s.len(),
{
    if s.len() == 0 {
        0
    } else {
        digits_value(s.drop_last()) * 10 + (s.last() as int - 48)
    }
}

/// What `i64::from_str` gives: an optional `+` or `-` followed by at least one
/// decimal digit and nothing else, whose value fits in an `i64`.
pub open spec fn spec_parse_i64(s: Seq<char>) -> Option<int> {
    let signed = s.len() > 0 && (s[0] == '-' || s[0] == '+');
    let body = if signed {
        s.drop_first()
    } else {
        s
    };
    let v = if s.len() > 0 && s[0] == '-' {
        -digits_value(body)
    } else {
        digits_value(body)
    };
    if body.len() > 0 && all_digits(body) && i64::MIN <= v <= i64::MAX {
        Some(v)
    } else {
        None
    }
}

proof fn lemma_digits_value_nonneg(s: Seq<char>)
    requires
        all_digits(s),
    ensures
        digits_value(s) >= 0,
    decreases s.len(),
{
    if s.len() > 0 {
        assert(all_digits(s.drop_last())) by {
            assert forall|i: int| 0 <= i < s.drop_last().len() implies is_digit(
                #[trigger] s.drop_last()[i],
            ) by {
                assert(s.drop_last()[i] == s[i]);
            }
        }
        lemma_digits_value_nonneg(s.drop_last());
        assert(is_digit(s[s.len() - 1]));
    }
}

fn digit_value_of(c: char) -> (r: Option<u128>)
    ensures
        r is Some <==> is_digit(c),
        r matches Some(d) ==> d == c as int - 48,
{
    match c {
        '0' => Some(0),
        '1' => Some(1),
        '2' => Some(2),
        '3' => Some(3),
        '4' => Some(4),
        '5' => Some(5),
        '6' => Some(6),
        '7' => Some(7),
        '8' => Some(8),
        '9' => Some(9),
        _ => None,
    }
}

/// Parses a decimal `i64` as `str::parse::<i64>` does.
pub fn parse_i64(s: &str) -> (r: Option<i64>)
    ensures
        r matches Some(v) ==> spec_parse_i64(s@) == Some(v as int),
        r is None ==> spec_parse_i64(s@) is None,
{
    let c = chars_of(s);
    let negative = c.len() > 0 && c[0] == '-';
    let signed = c.len() > 0 && (c[0] == '-' || c[0] == '+');
    let start: usize = if signed { 1 } else { 0 };
    let ghost body = if signed { s@.drop_first() } else { s@ };
    if start >= c.len() {
        return None;
    }
    // The magnitude, capped just above the largest `i64` magnitude.
    let cap: u128 = 9223372036854775809u128;
    let mut mag: u128 = 0;
    let mut i: usize = start;
    while i < c.len()
        invariant
            c@ == s@,
            start <= i <= c@.len(),
            start == (if signed { 1int } else { 0int }),
            body == s@.skip(start as int),
            body == (if s@.len() > 0 && (s@[0] == '-' || s@[0] == '+') {
                s@.drop_first()
            } else {
                s@
            }),
            negative == (s@.len() > 0 && s@[0] == '-'),
            cap == 9223372036854775809u128,
            all_digits(body.take(i - start)),
            mag as int == if digits_value(body.take(i - start)) < cap as int {
                digits_value(body.take(i - start))
            } else {
                cap as int
            },
        decreases c@.len() - i,
    {
        let ch = c[i];
        let d = match digit_value_of(ch) {
            Some(d) => d,
            None => {
                proof {
                    assert(body[i - start] == ch);
                    assert(!is_digit(body[i - start]));
                    assert(!all_digits(body));
                    assert(spec_parse_i64(s@) is None);
                }
                return None;
            },
        };
        let ghost prev = body.take(i - start);
        let ghost next = body.take(i - start + 1);
        proof {
            assert(next.drop_last() =~= prev);
            assert(next.last() == ch);
            assert(all_digits(next)) by {
                assert forall|k: int| 0 <= k < next.len() implies is_digit(#[trigger] next[k]) by {
                    if k < prev.len() {
                        assert(next[k] == prev[k]);
                    }
                }
            }
            lemma_digits_value_nonneg(prev);
            assert(digits_value(next) == digits_value(prev) * 10 + d);
        }
        if mag >= cap {
            mag = cap;
        } else {
            let m = mag * 10 + d;
            mag = if m >= cap { cap } else { m };
        }
        i = i + 1;
    }
    proof {
        assert(body.take(c@.len() - start) =~= body);
        lemma_digits_value_nonneg(body);
    }
    if negative {
        if mag <= 9223372036854775808u128 {
            let v: i128 = -(mag as i128);
            Some(v as i64)
        } else {
            None
        }
    } else {
        if mag <= 9223372036854775807u128 {
            Some(mag as i64)
        } else {
            None
        }
    }
}

/// A query argument's value, as a plugin receives it.
pub enum QueryValue {
    Int(i64),
    Bool(bool),
    Text(String),
}

/// The model of a query argument's value.
pub enum QueryData {
    Int(int),
    Bool(bool),
    Text(Seq<char>),
}

impl View for QueryValue {
    type V = QueryData;

    open spec fn view(&self) -> QueryData {
        match self {
            QueryValue::Int(n) => QueryData::Int(*n as int),
            QueryValue::Bool(b) => QueryData::Bool(*b),
            QueryValue::Text(t) => QueryData::Text(t@),
        }
    }
}

pub open spec fn true_text() -> Seq<char> {
    seq!['t', 'r', 'u', 'e']
}

pub open spec fn false_text() -> Seq<char> {
    seq!['f', 'a', 'l', 's', 'e']
}

/// How a raw query value is typed: an integer if it parses as one, else a
/// boolean if it is `true` or `false`, else text.
pub open spec fn spec_query_value(raw: Seq<char>) -> QueryData {
    match spec_parse_i64(raw) {
        Some(n) => QueryData::Int(n),
        None => if raw == true_text() {
            QueryData::Bool(true)
        } else if raw == false_text() {
            QueryData::Bool(false)
        } else {
            QueryData::Text(raw)
        },
    }
}

fn chars_equal(a: &[char], b: &[char]) -> (r: bool)
    ensures
        r == (a@ == b@),
{
    if a.len() != b.len() {
        return false;
    }
    let mut i: usize = 0;
    while i < a.len()
        invariant
            a@.len() == b@.len(),
            i <= a@.len(),
            forall|k: int| 0 <= k < i ==> a@[k] == b@[k],
        decreases a@.len() - i,
    {
        if a[i] != b[i] {
            return false;
        }
        i = i + 1;
    }
    assert(a@ =~= b@);
    true
}

/// Types a raw query value (see [`spec_query_value`]).
pub fn query_value(raw: &[char]) -> (v: QueryValue)
    ensures
        v@ == spec_query_value(raw@),
        spec_parse_i64(raw@) matches Some(n) ==> v@ == QueryData::Int(n),
        spec_parse_i64(raw@) is None && raw@ == seq!['t', 'r', 'u', 'e'] ==> v@ == QueryData::Bool(
            true,
        ),
        spec_parse_i64(raw@) is None && raw@ == seq!['f', 'a', 'l', 's', 'e'] ==> v@
            == QueryData::Bool(false),
        spec_parse_i64(raw@) is None && raw@ != seq!['t', 'r', 'u', 'e'] && raw@ != seq![
            'f',
            'a',
            'l',
            's',
            'e',
        ] ==> v@ == QueryData::Text(raw@),
{
    let text = string_from_chars(raw);
    match parse_i64(text.as_str()) {
        Some(n) => QueryValue::Int(n),
        None => {
            let t: [char; 4] = ['t', 'r', 'u', 'e'];
            let f: [char; 5] = ['f', 'a', 'l', 's', 'e'];
            proof {
                assert(t@ =~= true_text());
                assert(f@ =~= false_text());
            }
            if chars_equal(raw, &t) {
                QueryValue::Bool(true)
            } else if chars_equal(raw, &f) {
                QueryValue::Bool(false)
            } else {
                QueryValue::Text(text)
            }
        },
    }
}

/// Every `&`-separated argument of the query holds a `=`.
pub open spec fn query_well_formed(query: Seq<char>) -> bool {
    forall|i: int|
        0 <= i < split_on(query, '&').len() ==> #[trigger] split_on(
            split_on(query, '&')[i],
            '=',
        ).len() >= 2
}

/// The arguments of the first pieces of a query, each name bound to the typed
/// text between its first and second `=`; a later argument of the same name
/// replaces an earlier one.
pub open spec fn query_map(pieces: Seq<Seq<char>>) -> Map<Seq<char>, QueryData>
    decreases pieces.len(),
{
    if pieces.len() == 0 {
        Map::empty()
    } else {
        let parts = split_on(pieces.last(), '=');
        query_map(pieces.drop_last()).insert(parts[0], spec_query_value(parts[1]))
    }
}

/// The arguments of a whole query.
pub open spec fn spec_query_args(query: Seq<char>) -> Map<Seq<char>, QueryData> {
    query_map(split_on(query, '&'))
}

/// A named query argument.
pub struct QueryParam {
    pub name: String,
    pub value: QueryValue,
}

/// `params` lists exactly the bindings of `m`, each name once.
pub open spec fn lists_map(params: Seq<QueryParam>, m: Map<Seq<char>, QueryData>) -> bool {
    &&& forall|i: int, j: int|
        0 <= i < j < params.len() ==> params[i].name@ != params[j].name@
    &&& forall|j: int|
        0 <= j < params.len() ==> m.contains_key(#[trigger] params[j].name@) && m[params[j].name@]
            == params[j].value@
    &&& forall|k: Seq<char>|
        #[trigger] m.contains_key(k) ==> exists|j: int| 0 <= j < params.len() && params[j].name@ == k
}

/// Whether every argument of the query holds a `=` (see [`query_well_formed`]).
pub fn query_is_well_formed(query: &str) -> (b: bool)
    ensures
        b == query_well_formed(query@),
{
    let q = chars_of(query);
    let pieces = split_chars(q.as_slice(), '&');
    let mut i: usize = 0;
    while i < pieces.len()
        invariant
            q@ == query@,
            pieces@.len() == split_on(query@, '&').len(),
            forall|k: int| 0 <= k < pieces@.len() ==> #[trigger] pieces@[k]@ == split_on(query@, '&')[k],
            i <= pieces@.len(),
            forall|k: int| 0 <= k < i ==> #[trigger] split_on(split_on(query@, '&')[k], '=').len() >= 2,
        decreases pieces@.len() - i,
    {
        let parts = split_chars(pieces[i].as_slice(), '=');
        if parts.len() < 2 {
            return false;
        }
        i = i + 1;
    }
    true
}

/// The arguments of a plugin call's query: each `&`-separated argument is a
/// name, a `=`, and a value (text after a further `=` is dropped); values are
/// typed by [`spec_query_value`] and a later argument of the same name
/// replaces an earlier one.
pub fn parse_query(query: &str) -> (params: Vec<QueryParam>)
    requires
        query_well_formed(query@),
    ensures
        lists_map(params@, spec_query_args(query@)),
{
    let q = chars_of(query);
    let pieces = split_chars(q.as_slice(), '&');
    let ghost all = split_on(query@, '&');
    let mut params: Vec<QueryParam> = Vec::new();
    let mut i: usize = 0;
    assert(all.take(0) =~= Seq::<Seq<char>>::empty());
    while i < pieces.len()
        invariant
            q@ == query@,
            all == split_on(query@, '&'),
            query_well_formed(query@),
            pieces@.len() == all.len(),
            forall|k: int| 0 <= k < pieces@.len() ==> #[trigger] pieces@[k]@ == all[k],
            i <= pieces@.len(),
            lists_map(params@, query_map(all.take(i as int))),
        decreases pieces@.len() - i,
    {
        let parts = split_chars(pieces[i].as_slice(), '=');
        proof {
            assert(split_on(all[i as int], '=').len() >= 2);
        }
        let name = string_from_chars(parts[0].as_slice());
        let value = query_value(parts[1].as_slice());
        let ghost before = query_map(all.take(i as int));
        let ghost after = before.insert(name@, value@);
        proof {
            assert(all.take(i + 1).drop_last() =~= all.take(i as int));
            assert(all.take(i + 1).last() == all[i as int]);
            assert(query_map(all.take(i + 1)) == after);
        }
        let ghost old_params = params@;
        let mut j: usize = 0;
        let mut found = false;
        while !found && j < params.len()
            invariant
                params@ == old_params,
                j <= params@.len(),
                found ==> j < params@.len() && params@[j as int].name@ == name@,
                forall|k: int| 0 <= k < j ==> #[trigger] params@[k].name@ != name@,
            decreases params@.len() - j + (if found { 0int } else { 1int }),
        {
            if params[j].name == name {
                found = true;
            } else {
                j = j + 1;
            }
        }
        if found {
            let entry = QueryParam { name, value };
            params.set(j, entry);
            proof {
                assert forall|a: int, b: int| 0 <= a < b < params@.len() implies params@[a].name@
                    != params@[b].name@ by {
                    assert(old_params[a].name@ != old_params[b].name@);
                }
                assert forall|k: Seq<char>| #[trigger] after.contains_key(k) implies exists|m: int|
                    0 <= m < params@.len() && params@[m].name@ == k by {
                    if k != name@ {
                        let m = choose|m: int| 0 <= m < old_params.len() && old_params[m].name@ == k;
                        assert(params@[m].name@ == k);
                    } else {
                        assert(params@[j as int].name@ == k);
                    }
                }
                assert forall|m: int| 0 <= m < params@.len() implies after.contains_key(
                    #[trigger] params@[m].name@,
                ) && after[params@[m].name@] == params@[m].value@ by {
                    if m != j {
                        assert(params@[m] == old_params[m]);
                        assert(old_params[m].name@ != old_params[j as int].name@);
                    }
                }
            }
        } else {
            let entry = QueryParam { name, value };
            params.push(entry);
            proof {
                assert forall|k: Seq<char>| #[trigger] after.contains_key(k) implies exists|m: int|
                    0 <= m < params@.len() && params@[m].name@ == k by {
                    if k != name@ {
                        let m = choose|m: int| 0 <= m < old_params.len() && old_params[m].name@ == k;
                        assert(params@[m].name@ == k);
                    } else {
                        assert(params@[old_params.len() as int].name@ == k);
                    }
                }
                assert forall|m: int| 0 <= m < params@.len() implies after.contains_key(
                    #[trigger] params@[m].name@,
                ) && after[params@[m].name@] == params@[m].value@ by {
                    if m < old_params.len() {
                        assert(params@[m] == old_params[m]);
                    }
                }
                assert forall|a: int, b: int| 0 <= a < b < params@.len() implies params@[a].name@
                    != params@[b].name@ by {
                    if b < old_params.len() {
                        assert(params@[b] == old_params[b]);
                    }
                    assert(params@[a] == old_params[a]);
                }
            }
        }
        i = i + 1;
    }
    proof {
        assert(all.take(pieces@.len() as int) =~= all);
    }
    params
}

/// The plugin and method a request path names: its last `/`-separated segment,
/// when it holds a `.`, is `<plugin>.<...>.<method>`; the plugin is the text
/// before the first `.` and the method the text after the last one.
pub open spec fn spec_plugin_call(path: Seq<char>) -> Option<(Seq<char>, Seq<char>)> {
    let segment = split_on(path, '/').last();
    if contains_seq(segment, seq!['.']) {
        let parts = split_on(segment, '.');
        Some((parts[0], parts.last()))
    } else {
        None
    }
}

/// A plugin call: the library's name and the function called in it.
pub struct PluginCall {
    pub plugin: String,
    pub method: String,
}

/// The HTTP method a plugin is called with.
#[derive(Debug, Clone, Copy, PartialEq, Eq, Structural)]
pub enum CallMethod {
    Get,
    Post,
}

/// Why a plugin call failed.
pub enum PluginError {
    /// The path names no `<plugin>.<method>`.
    MissingProgram,
    /// There is no `plugins` folder.
    NoPluginFolder,
    /// The plugin's library could not be loaded.
    LibraryNotLoaded,
    /// The library has no such function.
    MethodNotFound,
    /// The plugin, or reading the request, failed with this text.
    Raised(String),
}

impl PluginCall {
    /// Which plugin and method `path` names, or [`PluginError::MissingProgram`].
    pub fn from_path(path: &str) -> (r: Result<PluginCall, PluginError>)
        ensures
            spec_plugin_call(path@) is None <==> r matches Err(PluginError::MissingProgram),
            spec_plugin_call(path@) matches Some(pm) ==> (r matches Ok(c) && c.plugin@ == pm.0
                && c.method@ == pm.1),
    {
        let p = chars_of(path);
        let segments = split_chars(p.as_slice(), '/');
        proof {
            lemma_split_on_nonempty(path@, '/');
        }
        let last = &segments[segments.len() - 1];
        let dot: [char; 1] = ['.'];
        assert(dot@ =~= seq!['.']);
        match chars_find(last.as_slice(), &dot) {
            Some(_) => {
                let parts = split_chars(last.as_slice(), '.');
                proof {
                    lemma_split_on_nonempty(last@, '.');
                }
                let plugin = string_from_chars(parts[0].as_slice());
                let method = string_from_chars(parts[parts.len() - 1].as_slice());
                Ok(PluginCall { plugin, method })
            },
            None => Err(PluginError::MissingProgram),
        }
    }

    /// The file name of the plugin's library: `<plugin>.dll`.
    pub fn library_file(&self) -> (r: String)
        ensures
            r@ == self.plugin@ + seq!['.', 'd', 'l', 'l'],
    {
        let mut v = chars_of(self.plugin.as_str());
        v.push('.');
        v.push('d');
        v.push('l');
        v.push('l');
        assert(v@ =~= self.plugin@ + seq!['.', 'd', 'l', 'l']);
        string_from_chars(v.as_slice())
    }
}

/// Where a plugin's library is loaded from.
pub enum LibraryPath {
    /// This file inside the plugin folder that was found.
    InPluginFolder(String),
    /// This path, relative to the working folder.
    Relative(String),
}

impl PluginCall {
    /// Where the library is loaded from: a GET call loads the file from the
    /// plugin folder found, a POST call loads `plugins/<file>` from the working
    /// folder.
    pub fn library_path(&self, method: CallMethod) -> (r: LibraryPath)
        ensures
            method == CallMethod::Get ==> (r matches LibraryPath::InPluginFolder(f) && f@
                == self.plugin@ + seq!['.', 'd', 'l', 'l']),
            method == CallMethod::Post ==> (r matches LibraryPath::Relative(f) && f@ == seq![
                'p',
                'l',
                'u',
                'g',
                'i',
                'n',
                's',
                '/',
            ] + self.plugin@ + seq!['.', 'd', 'l', 'l']),
    {
        let file = self.library_file();
        match method {
            CallMethod::Get => LibraryPath::InPluginFolder(file),
            CallMethod::Post => {
                let mut v: Vec<char> = vec!['p', 'l', 'u', 'g', 'i', 'n', 's', '/'];
                let mut f = chars_of(file.as_str());
                v.append(&mut f);
                assert(v@ =~= seq!['p', 'l', 'u', 'g', 'i', 'n', 's', '/'] + self.plugin@ + seq![
                    '.',
                    'd',
                    'l',
                    'l',
                ]);
                LibraryPath::Relative(string_from_chars(v.as_slice()))
            },
        }
    }
}

/// The folder, next to the server, that holds the plugins.
pub fn plugins_folder() -> (r: String)
    ensures
        r@ == seq!['p', 'l', 'u', 'g', 'i', 'n', 's'],
{
    let t: [char; 7] = ['p', 'l', 'u', 'g', 'i', 'n', 's'];
    assert(t@ =~= seq!['p', 'l', 'u', 'g', 'i', 'n', 's']);
    string_from_chars(&t)
}

pub open spec fn missing_program_text() -> Seq<char> {
    seq![
        'E', 'r', 'r', 'o', 'r', ' ', 'm', 'i', 's', 's', 'i', 'n', 'g', ' ', 'p', 'a', 'r', 'a',
        'm', 'e', 't', 'e', 'r', ' ', 'p', 'r', 'o', 'g', 'r', 'a', 'm', ' ', 't', 'o', ' ', 'c',
        'a', 'l', 'l',
    ]
}

pub open spec fn invalid_path_found_text() -> Seq<char> {
    seq![
        'I', 'n', 'v', 'a', 'l', 'i', 'd', ' ', 'p', 'a', 't', 'h', ' ', 'n', 'o', 't', ' ', 'f',
        'o', 'u', 'n', 'd',
    ]
}

pub open spec fn invalid_library_text() -> Seq<char> {
    seq![
        'I', 'n', 'v', 'a', 'l', 'i', 'd', ' ', 'l', 'i', 'b', 'r', 'a', 'r', 'y', ' ', 'n', 'o',
        't', ' ', 'f', 'o', 'u', 'n', 'd',
    ]
}

pub open spec fn invalid_plugin_text() -> Seq<char> {
    seq![
        'I', 'n', 'v', 'a', 'l', 'i', 'd', ' ', 'p', 'l', 'u', 'g', 'i', 'n', ' ', 'n', 'o', 't',
        ' ', 'f', 'o', 'u', 'n', 'd',
    ]
}

pub open spec fn method_not_found_text() -> Seq<char> {
    seq![
        'E', 'r', 'r', 'o', 'r', ' ', 'i', 'n', 'v', 'a', 'l', 'i', 'd', ' ', 'm', 'e', 't', 'h',
        'o', 'd', ' ', 'n', 'o', 't', ' ', 'f', 'o', 'u', 'n', 'd',
    ]
}

/// The message a failed call is reported with. The two methods word the
/// missing folder and the unloadable library differently.
pub open spec fn spec_error_text(e: PluginError, method: CallMethod) -> Seq<char> {
    match e {
        PluginError::MissingProgram => missing_program_text(),
        PluginError::NoPluginFolder => if method == CallMethod::Get {
            invalid_path_found_text()
        } else {
            invalid_library_text()
        },
        PluginError::LibraryNotLoaded => if method == CallMethod::Get {
            invalid_library_text()
        } else {
            invalid_plugin_text()
        },
        PluginError::MethodNotFound => method_not_found_text(),
        PluginError::Raised(t) => t@,
    }
}

impl PluginError {
    /// The message this failure is reported with, for a call made with `method`.
    pub fn message(&self, method: CallMethod) -> (r: String)
        ensures
            r@ == spec_error_text(*self, method),
    {
        match self {
            PluginError::MissingProgram => {
                let t: [char; 39] = [
                    'E', 'r', 'r', 'o', 'r', ' ', 'm', 'i', 's', 's', 'i', 'n', 'g', ' ', 'p', 'a',
                    'r', 'a', 'm', 'e', 't', 'e', 'r', ' ', 'p', 'r', 'o', 'g', 'r', 'a', 'm', ' ',
                    't', 'o', ' ', 'c', 'a', 'l', 'l',
                ];
                assert(t@ =~= missing_program_text());
                string_from_chars(&t)
            },
            PluginError::NoPluginFolder => {
                match method {
                    CallMethod::Get => invalid_path_found(),
                    CallMethod::Post => invalid_library(),
                }
            },
            PluginError::LibraryNotLoaded => {
                if let CallMethod::Get = method {
                    invalid_library()
                } else {
                    let t: [char; 24] = [
                        'I', 'n', 'v', 'a', 'l', 'i', 'd', ' ', 'p', 'l', 'u', 'g', 'i', 'n', ' ',
                        'n', 'o', 't', ' ', 'f', 'o', 'u', 'n', 'd',
                    ];
                    assert(t@ =~= invalid_plugin_text());
                    string_from_chars(&t)
                }
            },
            PluginError::MethodNotFound => {
                let t: [char; 30] = [
                    'E', 'r', 'r', 'o', 'r', ' ', 'i', 'n', 'v', 'a', 'l', 'i', 'd', ' ', 'm', 'e',
                    't', 'h', 'o', 'd', ' ', 'n', 'o', 't', ' ', 'f', 'o', 'u', 'n', 'd',
                ];
                assert(t@ =~= method_not_found_text());
                string_from_chars(&t)
            },
            PluginError::Raised(t) => t.clone(),
        }
    }
}

fn invalid_path_found() -> (r: String)
    ensures
        r@ == invalid_path_found_text(),
{
    let t: [char; 22] = [
        'I', 'n', 'v', 'a', 'l', 'i', 'd', ' ', 'p', 'a', 't', 'h', ' ', 'n', 'o', 't', ' ', 'f',
        'o', 'u', 'n', 'd',
    ];
    assert(t@ =~= invalid_path_found_text());
    string_from_chars(&t)
}

fn invalid_library() -> (r: String)
    ensures
        r@ == invalid_library_text(),
{
    let t: [char; 25] = [
        'I', 'n', 'v', 'a', 'l', 'i', 'd', ' ', 'l', 'i', 'b', 'r', 'a', 'r', 'y', ' ', 'n', 'o',
        't', ' ', 'f', 'o', 'u', 'n', 'd',
    ];
    assert(t@ =~= invalid_library_text());
    string_from_chars(&t)
}

#[verifier::external_type_specification]
#[verifier::external_body]
pub struct ExJsonValue(serde_json::Value);

/// The text `String::from_utf8_lossy` makes of bytes that are not valid UTF-8.
pub uninterp spec fn lossy_text(bytes: Seq<u8>) -> Seq<char>;

/// The bytes as text, each invalid sequence replaced by U+FFFD
/// (`String::from_utf8_lossy`): valid UTF-8 is decoded as it is, and other
/// bytes give the named text.
#[verifier::external_body]
fn utf8_lossy(bytes: &[u8]) -> (r: String)
    ensures
        r@ == lossy_text(bytes@),
        valid_utf8(bytes@) ==> r@ == decode_utf8(bytes@),
{
    String::from_utf8_lossy(bytes).into_owned()
}

/// What `serde_json` makes of the text read as one JSON value: the value, or
/// the text of its error.
pub uninterp spec fn json_read(text: Seq<char>) -> Result<serde_json::Value, Seq<char>>;

/// Parses one JSON value (`serde_json::from_str`). Its outcome, the value or the
/// error's text, is named, not stated (the JSON grammar and the messages are the
/// crate's); it depends on the text alone.
#[verifier::external_body]
fn parse_json(text: &str) -> (r: Result<serde_json::Value, String>)
    ensures
        r is Ok == json_read(text@) is Ok,
        r is Ok ==> json_read(text@) == Ok::<serde_json::Value, Seq<char>>(r->Ok_0),
        r is Err ==> json_read(text@) == Err::<serde_json::Value, Seq<char>>(r->Err_0@),
{
    match serde_json::from_str(text) {
        Ok(v) => Ok(v),
        Err(e) => Err(e.to_string()),
    }
}

/// The JSON argument of a POST call: the value `serde_json` reads from the body
/// as text (invalid UTF-8 replaced); a body that is not JSON is an error with
/// the parser's text.
pub fn post_payload(body: &[u8]) -> (r: Result<serde_json::Value, PluginError>)
    ensures
        r is Ok == json_read(lossy_text(body@)) is Ok,
        r matches Ok(v) ==> json_read(lossy_text(body@)) == Ok::<serde_json::Value, Seq<char>>(
            v,
        ),
        r matches Err(e) ==> (e matches PluginError::Raised(t) && json_read(lossy_text(body@))
            == Err::<serde_json::Value, Seq<char>>(t@)),
{
    let text = utf8_lossy(body);
    match parse_json(text.as_str()) {
        Ok(v) => Ok(v),
        Err(t) => Err(PluginError::Raised(t)),
    }
}

proof fn lemma_digit_char_value(d: int)
    requires
        0 <= d < 10,
    ensures
        is_digit(digit_char(d)),
        digit_char(d) as int - 48 == d,
{
}

proof fn lemma_decimal_digits_value(n: nat)
    ensures
        decimal_digits(n).len() > 0,
        all_digits(decimal_digits(n)),
        digits_value(decimal_digits(n)) == n,
    decreases n,
{
    let s = decimal_digits(n);
    if n < 10 {
        lemma_digit_char_value(n as int);
        assert(s.drop_last() =~= Seq::<char>::empty());
        assert(digits_value(s.drop_last()) == 0);
        assert(digits_value(s) == digits_value(s.drop_last()) * 10 + (s.last() as int - 48));
    } else {
        lemma_decimal_digits_value(n / 10);
        lemma_digit_char_value((n % 10) as int);
        let p = decimal_digits(n / 10);
        assert(s.drop_last() =~= p);
        assert(s.last() == digit_char((n % 10) as int));
        assert(all_digits(s)) by {
            assert forall|i: int| 0 <= i < s.len() implies is_digit(#[trigger] s[i]) by {
                if i < p.len() {
                    assert(s[i] == p[i]);
                }
            }
        }
        vstd::arithmetic::div_mod::lemma_fundamental_div_mod(n as int, 10);
        assert(digits_value(s) == digits_value(p) * 10 + (s.last() as int - 48));
    }
}

/// Parsing the decimal text of any `i64` gives the number back.
pub proof fn law_decimal_text_parses_back(n: int)
    requires
        i64::MIN <= n <= i64::MAX,
    ensures
        spec_parse_i64(decimal_text(n)) == Some(n),
{
    if n < 0 {
        let digits = decimal_digits((-n) as nat);
        lemma_decimal_digits_value((-n) as nat);
        let s = decimal_text(n);
        assert(s.drop_first() =~= digits);
    } else {
        let digits = decimal_digits(n as nat);
        lemma_decimal_digits_value(n as nat);
        assert(is_digit(digits[0]));
    }
}

/// A later query argument replaces an earlier one of the same name: adding
/// `&name=raw` to a query binds `name` to the typed `raw` and leaves the other
/// arguments as they were.
pub proof fn law_later_argument_wins(query: Seq<char>, name: Seq<char>, raw: Seq<char>)
    requires
        !name.contains('&'),
        !name.contains('='),
        !raw.contains('&'),
        !raw.contains('='),
    ensures
        spec_query_args(query + seq!['&'] + (name + seq!['='] + raw)) == spec_query_args(
            query,
        ).insert(name, spec_query_value(raw)),
{
    let arg = name + seq!['='] + raw;
    assert(!arg.contains('&')) by {
        if arg.contains('&') {
            let k = choose|k: int| 0 <= k < arg.len() && arg[k] == '&';
            if k < name.len() {
                assert(name[k] == '&');
            } else if k > name.len() {
                assert(raw[k - name.len() - 1] == '&');
            }
        }
    }
    lemma_split_on_concat(query, arg, '&');
    lemma_split_on_single(arg, '&');
    lemma_split_on_concat(name, raw, '=');
    lemma_split_on_single(name, '=');
    lemma_split_on_single(raw, '=');
    let pieces = split_on(query, '&') + seq![arg];
    assert(split_on(query + seq!['&'] + arg, '&') == pieces);
    assert(pieces.drop_last() =~= split_on(query, '&'));
    assert(pieces.last() == arg);
    assert(split_on(arg, '=') =~= seq![name, raw]);
}

/// Neither the plugin nor the method a request names contains a dot.
pub proof fn law_plugin_names_have_no_dot(path: Seq<char>)
    ensures
        spec_plugin_call(path) matches Some(pm) ==> !pm.0.contains('.') && !pm.1.contains('.'),
{
    if let Some(pm) = spec_plugin_call(path) {
        lemma_split_on_nonempty(path, '/');
        let segment = split_on(path, '/').last();
        lemma_split_on_nonempty(segment, '.');
        let parts = split_on(segment, '.');
        lemma_split_on_pieces_lack_sep(segment, '.', 0);
        lemma_split_on_pieces_lack_sep(segment, '.', parts.len() - 1);
    }
}

/// Every raw query value that `i64::from_str` accepts is passed as that
/// integer, whatever its sign; `true` and `false` are booleans; anything else
/// is passed as its text.
pub proof fn law_query_values_are_typed(raw: Seq<char>)
    ensures
        spec_parse_i64(raw) matches Some(n) ==> spec_query_value(raw) == QueryData::Int(n),
        spec_parse_i64(raw) is None && raw == seq!['t', 'r', 'u', 'e'] ==> spec_query_value(raw)
            == QueryData::Bool(true),
        spec_parse_i64(raw) is None && raw == seq!['f', 'a', 'l', 's', 'e'] ==> spec_query_value(
            raw,
        ) == QueryData::Bool(false),
        spec_parse_i64(raw) is None && raw != seq!['t', 'r', 'u', 'e'] && raw != seq![
            'f',
            'a',
            'l',
            's',
            'e',
        ] ==> spec_query_value(raw) == QueryData::Text(raw),
{
    assert(true_text() =~= seq!['t', 'r', 'u', 'e']);
    assert(false_text() =~= seq!['f', 'a', 'l', 's', 'e']);
}

/// The decimal text of every `i64`, negative ones included, is passed to a
/// plugin as that integer.
pub proof fn law_decimal_values_are_integers(n: int)
    requires
        i64::MIN <= n <= i64::MAX,
    ensures
        spec_query_value(decimal_text(n)) == QueryData::Int(n),
{
    law_decimal_text_parses_back(n);
}

/// A request path ending in a segment `<plugin>.<method>` (neither part holding
/// a `.` or a `/`) calls that method of that plugin, whatever comes before the
/// segment; a last segment without a `.` names no call.
pub proof fn law_plugin_call_from_last_segment(
    prefix: Seq<char>,
    plugin: Seq<char>,
    method: Seq<char>,
)
    requires
        !plugin.contains('.'),
        !plugin.contains('/'),
        !method.contains('.'),
        !method.contains('/'),
    ensures
        spec_plugin_call(prefix + seq!['/'] + (plugin + seq!['.'] + method)) == Some(
            (plugin, method),
        ),
        spec_plugin_call(prefix + seq!['/'] + plugin) is None,
{
    let segment = plugin + seq!['.'] + method;
    assert(!segment.contains('/')) by {
        if segment.contains('/') {
            let k = choose|k: int| 0 <= k < segment.len() && segment[k] == '/';
            if k < plugin.len() {
                assert(plugin[k] == '/');
            } else if k > plugin.len() {
                assert(method[k - plugin.len() - 1] == '/');
            }
        }
    }
    lemma_split_on_concat(prefix, segment, '/');
    lemma_split_on_single(segment, '/');
    lemma_split_on_concat(prefix, plugin, '/');
    lemma_split_on_single(plugin, '/');
    lemma_split_on_nonempty(prefix, '/');
    let dot_at = plugin.len() as int;
    assert(segment.subrange(dot_at, dot_at + 1) =~= seq!['.']);
    assert(matches_at(segment, seq!['.'], dot_at));
    assert(matches_at(segment, seq!['.'], plugin.len() as int));
    assert(contains_seq(segment, seq!['.']));
    lemma_split_on_concat(plugin, method, '.');
    lemma_split_on_single(plugin, '.');
    lemma_split_on_single(method, '.');
    assert(split_on(segment, '.') =~= seq![plugin, method]);
    assert(!contains_seq(plugin, seq!['.'])) by {
        if contains_seq(plugin, seq!['.']) {
            let i = choose|i: int| matches_at(plugin, seq!['.'], i);
            assert(plugin.subrange(i, i + 1)[0] == plugin[i]);
        }
    }
}

} // verus!
