//! Parsed request headers and the per-operation header contract.
//!
//! Every operation declares the header fields it requires; a request is
//! turned away before any handler logic runs unless each declared field is
//! present.  Presence alone is checked here, never content.  The table of
//! operations is closed: a name outside it fails validation rather than
//! passing vacuously.

use vstd::prelude::*;
use vstd::string::*;

verus! {

/// A parsed header map: field names to field values, later entries
/// shadowing earlier ones with the same name.
pub struct HeaderMap {
    entries: Vec<(String, String)>,
}

/// The map an entry list denotes, inserting entries left to right.
pub open spec fn entries_map(s: Seq<(String, String)>) -> Map<Seq<char>, Seq<char>>
    decreases s.len(),
{
    if s.len() == 0 {
        Map::empty()
    } else {
        entries_map(s.drop_last()).insert(s.last().0@, s.last().1@)
    }
}

impl View for HeaderMap {
    type V = Map<Seq<char>, Seq<char>>;

    closed spec fn view(&self) -> Map<Seq<char>, Seq<char>> {
        entries_map(self.entries@)
    }
}

/// Entries at positions `i` and beyond never mention `k`, so dropping
/// them does not change what the map says about `k`.
proof fn lemma_lookup_from(s: Seq<(String, String)>, i: int, k: Seq<char>)
    requires
        0 <= i <= s.len(),
        forall|j: int| i <= j < s.len() ==> (#[trigger] s[j]).0@ != k,
    ensures
        entries_map(s).contains_key(k) == entries_map(s.take(i)).contains_key(k),
        entries_map(s).contains_key(k) ==> entries_map(s)[k] == entries_map(s.take(i))[k],
    decreases s.len() - i,
{
    if i == s.len() {
        assert(s.take(i) =~= s);
    } else {
        lemma_lookup_from(s, i + 1, k);
        assert(s.take(i + 1).drop_last() =~= s.take(i));
        assert(entries_map(s.take(i + 1)) == entries_map(s.take(i)).insert(s[i].0@, s[i].1@));
    }
}

impl HeaderMap {
    /// An empty header map.
    pub fn new() -> (r: HeaderMap)
        ensures
            r@ == Map::<Seq<char>, Seq<char>>::empty(),
    {
        HeaderMap { entries: Vec::new() }
    }

    /// Records a header field, shadowing any earlier field of the same name.
    pub fn insert(&mut self, key: String, value: String)
        ensures
            final(self)@ == old(self)@.insert(key@, value@),
    {
        let ghost prev = self.entries@;
        self.entries.push((key, value));
        proof {
            assert(self.entries@.drop_last() =~= prev);
        }
    }

    /// Looks a field up by name; yields its value, or nothing when the
    /// request never supplied the field.
    pub fn get(&self, key: &str) -> (r: Option<String>)
        ensures
            match r {
                Some(v) => self@.contains_key(key@) && v@ == self@[key@],
                None => !self@.contains_key(key@),
            },
    {
        let n = self.entries.len();
        let mut i: usize = n;
        while i > 0
            invariant
                i <= n,
                n == self.entries.len(),
                forall|j: int| i <= j < n ==> (#[trigger] self.entries@[j]).0@ != key@,
            decreases i,
        {
            let j = i - 1;
            let hit = self.entries[j].0.as_str().eq(key);
            if hit {
                proof {
                    lemma_lookup_from(self.entries@, j + 1, key@);
                    assert(self.entries@.take(j + 1).drop_last() =~= self.entries@.take(j as int));
                }
                return Some(self.entries[j].1.clone());
            }
            i = j;
        }
        proof {
            lemma_lookup_from(self.entries@, 0, key@);
            assert(self.entries@.take(0) =~= Seq::<(String, String)>::empty());
        }
        None
    }

    /// Whether the request supplied a field of this name at all.
    pub fn contains_key(&self, key: &str) -> (r: bool)
        ensures
            r == self@.contains_key(key@),
    {
        match self.get(key) {
            Some(_) => true,
            None => false,
        }
    }
}

/// The static header contract: each operation's ordered list of required
/// field names.  A name outside the table has no contract at all, and
/// validation refuses it.
pub open spec fn required_for(op: Seq<char>) -> Option<Seq<Seq<char>>> {
    if op == "create_account"@ {
        Some(seq!["username"@, "display_name"@, "password"@, "email"@, "bio"@, "age"@])
    } else if op == "login"@ {
        Some(seq!["email"@, "password"@])
    } else if op == "auth_test"@ {
        Some(seq!["Authorization"@])
    } else if op == "tweet"@ {
        Some(seq!["Authorization"@, "content"@])
    } else if op == "like"@ {
        Some(seq!["Authorization"@, "tweet"@])
    } else {
        None
    }
}

/// The table rows, spelled out: what [`required_for`] yields for each of
/// the known operation names.
pub proof fn lemma_required_tables()
    ensures
        required_for("create_account"@) == Some(
            seq!["username"@, "display_name"@, "password"@, "email"@, "bio"@, "age"@],
        ),
        required_for("login"@) == Some(seq!["email"@, "password"@]),
        required_for("auth_test"@) == Some(seq!["Authorization"@]),
        required_for("tweet"@) == Some(seq!["Authorization"@, "content"@]),
        required_for("like"@) == Some(seq!["Authorization"@, "tweet"@]),
{
    broadcast use vstd::string::group_string_axioms;

    reveal_strlit("create_account");
    reveal_strlit("login");
    reveal_strlit("auth_test");
    reveal_strlit("tweet");
    reveal_strlit("like");
    assert("create_account"@.len() == 14);
    assert("login"@.len() == 5);
    assert("auth_test"@.len() == 9);
    assert("tweet"@.len() == 5);
    assert("like"@.len() == 4);
    assert("login"@[0] == 'l');
    assert("tweet"@[0] == 't');
}

/// A request passes an operation's header contract exactly when the
/// operation is a known one and every required field is present.
pub open spec fn spec_validate(op: Seq<char>, m: Map<Seq<char>, Seq<char>>) -> bool {
    match required_for(op) {
        None => false,
        Some(fs) => forall|i: int| 0 <= i < fs.len() ==> m.contains_key(#[trigger] fs[i]),
    }
}

/// The required header names of a known operation, in declaration order;
/// nothing for an unknown operation name.
pub fn get_required_headers(name: &str) -> (r: Option<Vec<String>>)
    ensures
        match r {
            Some(v) => required_for(name@) == Some(v.deep_view()),
            None => required_for(name@) is None,
        },
{
    if name.eq("create_account") {
        let mut v: Vec<String> = Vec::new();
        v.push("username".to_owned());
        v.push("display_name".to_owned());
        v.push("password".to_owned());
        v.push("email".to_owned());
        v.push("bio".to_owned());
        v.push("age".to_owned());
        proof {
            assert(v.deep_view() =~= required_for(name@)->Some_0);
        }
        Some(v)
    } else if name.eq("login") {
        let mut v: Vec<String> = Vec::new();
        v.push("email".to_owned());
        v.push("password".to_owned());
        proof {
            assert(v.deep_view() =~= required_for(name@)->Some_0);
        }
        Some(v)
    } else if name.eq("auth_test") {
        let mut v: Vec<String> = Vec::new();
        v.push("Authorization".to_owned());
        proof {
            assert(v.deep_view() =~= required_for(name@)->Some_0);
        }
        Some(v)
    } else if name.eq("tweet") {
        let mut v: Vec<String> = Vec::new();
        v.push("Authorization".to_owned());
        v.push("content".to_owned());
        proof {
            assert(v.deep_view() =~= required_for(name@)->Some_0);
        }
        Some(v)
    } else if name.eq("like") {
        let mut v: Vec<String> = Vec::new();
        v.push("Authorization".to_owned());
        v.push("tweet".to_owned());
        proof {
            assert(v.deep_view() =~= required_for(name@)->Some_0);
        }
        Some(v)
    } else {
        None
    }
}

/// Enforces the header contract of the named operation: true exactly when
/// the operation is known and each of its required fields is present.
/// A failure must short-circuit the caller before any handler logic runs;
/// this check itself reads the map and nothing else.
pub fn validate(name: &str, headers: &HeaderMap) -> (r: bool)
    ensures
        r == spec_validate(name@, headers@),
{
    match get_required_headers(name) {
        None => false,
        Some(req) => {
            let ghost fs = required_for(name@)->Some_0;
            let mut i: usize = 0;
            while i < req.len()
                invariant
                    i <= req.len(),
                    required_for(name@) == Some(fs),
                    fs == req.deep_view(),
                    forall|j: int| 0 <= j < i ==> headers@.contains_key(#[trigger] fs[j]),
                decreases req.len() - i,
            {
                if !headers.contains_key(req[i].as_str()) {
                    proof {
                        assert(fs.len() == req@.len());
                        assert(fs[i as int] == req@[i as int]@);
                        assert(!headers@.contains_key(fs[i as int]));
                        assert(required_for(name@) is Some);
                        assert(required_for(name@)->Some_0 == fs);
                        if spec_validate(name@, headers@) {
                            assert(headers@.contains_key(required_for(name@)->Some_0[i as int]));
                            assert(headers@.contains_key(fs[i as int]));
                        }
                    }
                    return false;
                }
                i = i + 1;
            }
            true
        },
    }
}

} // verus!

