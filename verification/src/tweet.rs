//! Posts, their derived hashtags, and the membership toggle behind likes.

use vstd::prelude::*;
use vstd::string::*;

use crate::digits::{all_digits, val_of};
use crate::scan::{
    is_word_char, lemma_seq_first_index, lemma_seq_first_index_is, seq_first_index,
    lemma_word_run_len_is, word_run_len,
};
use crate::token::now_unix_seconds;
use crate::scan::find_char;

verus! {

broadcast use vstd::seq_lib::group_to_multiset_ensures;

/// A post: its owner's public identifier, decoded text, unique identifier,
/// the set of likers (kept as a duplicate-free list), creation instant and
/// the hashtags derived once from the text.
pub struct Tweet {
    pub owner: String,
    pub content: String,
    pub id: String,
    pub likes: Vec<String>,
    pub unix: u64,
    pub hashtags: Vec<String>,
}

/// Mathematical model of a post.
pub struct TweetView {
    pub owner: Seq<char>,
    pub content: Seq<char>,
    pub id: Seq<char>,
    pub likes: Seq<Seq<char>>,
    pub unix: u64,
    pub hashtags: Seq<Seq<char>>,
}

impl View for Tweet {
    type V = TweetView;

    open spec fn view(&self) -> TweetView {
        TweetView {
            owner: self.owner@,
            content: self.content@,
            id: self.id@,
            likes: self.likes.deep_view(),
            unix: self.unix,
            hashtags: self.hashtags.deep_view(),
        }
    }
}

/// A comment: shaped like a post plus the identifier of its parent.
pub struct Comment {
    pub owner: String,
    pub content: String,
    pub id: String,
    pub unix: u64,
    pub hashtags: Vec<String>,
    pub tweet: String,
    pub likes: Vec<String>,
}

impl Default for Tweet {
    /// An empty post stamped with the current clock reading.
    fn default() -> (r: Tweet)
        ensures
            r.owner@.len() == 0,
            r.content@.len() == 0,
            r.id@.len() == 0,
            r.likes@.len() == 0,
            r.hashtags@.len() == 0,
    {
        Tweet {
            owner: String::new(),
            content: String::new(),
            id: String::new(),
            likes: Vec::new(),
            unix: now_unix_seconds(),
            hashtags: Vec::new(),
        }
    }
}

impl Default for Comment {
    /// An empty comment stamped with the current clock reading.
    fn default() -> (r: Comment)
        ensures
            r.owner@.len() == 0,
            r.content@.len() == 0,
            r.id@.len() == 0,
            r.tweet@.len() == 0,
            r.likes@.len() == 0,
            r.hashtags@.len() == 0,
    {
        Comment {
            owner: String::new(),
            content: String::new(),
            id: String::new(),
            unix: now_unix_seconds(),
            hashtags: Vec::new(),
            tweet: String::new(),
            likes: Vec::new(),
        }
    }
}

// --- The membership toggle. ---

/// What one toggle did to the liker set.
#[derive(Clone, Copy, Debug, PartialEq, Eq, Structural)]
pub enum LikeAction {
    Added,
    Removed,
}

/// A liker list holds each identifier at most once.
pub open spec fn likes_unique(s: Seq<Seq<char>>) -> bool {
    forall|i: int, j: int| 0 <= i < j < s.len() ==> s[i] != s[j]
}

/// The symmetric-difference update: remove the actor if present, add the
/// actor if absent, and report which of the two happened.
pub open spec fn spec_toggle(s: Seq<Seq<char>>, a: Seq<char>) -> (Seq<Seq<char>>, LikeAction) {
    if s.contains(a) {
        (s.remove(s.index_of(a)), LikeAction::Removed)
    } else {
        (s.push(a), LikeAction::Added)
    }
}

/// What one toggle guarantees: uniqueness is kept, the actor's membership
/// flips, nobody else's membership moves, and the list grows or shrinks by
/// exactly one.
pub proof fn lemma_toggle_properties(s: Seq<Seq<char>>, a: Seq<char>)
    requires
        likes_unique(s),
    ensures
        ({
            let (s2, act) = spec_toggle(s, a);
            &&& likes_unique(s2)
            &&& (act == LikeAction::Removed <==> s.contains(a))
            &&& s2.contains(a) == !s.contains(a)
            &&& forall|x: Seq<char>| x != a ==> #[trigger] s2.contains(x) == s.contains(x)
            &&& s.contains(a) ==> s2.len() == s.len() - 1
            &&& !s.contains(a) ==> s2.len() == s.len() + 1
        }),
{
    let (s2, act) = spec_toggle(s, a);
    if s.contains(a) {
        let i = s.index_of(a);
        assert(0 <= i < s.len() && s[i] == a);
        assert forall|p: int, q: int| 0 <= p < q < s2.len() implies s2[p] != s2[q] by {
            let p0 = if p < i { p } else { p + 1 };
            let q0 = if q < i { q } else { q + 1 };
            assert(s2[p] == s[p0] && s2[q] == s[q0]);
        }
        assert(!s2.contains(a)) by {
            if s2.contains(a) {
                let j = choose|j: int| 0 <= j < s2.len() && s2[j] == a;
                if j < i {
                    assert(s[j] == a && s[i] == a);
                } else {
                    assert(s[j + 1] == a && s[i] == a);
                }
            }
        }
        assert forall|x: Seq<char>| x != a implies #[trigger] s2.contains(x) == s.contains(
            x,
        ) by {
            if s2.contains(x) {
                let j = choose|j: int| 0 <= j < s2.len() && s2[j] == x;
                let j0 = if j < i { j } else { j + 1 };
                assert(s[j0] == x);
            }
            if s.contains(x) {
                let k = choose|k: int| 0 <= k < s.len() && s[k] == x;
                let k0 = if k < i { k } else { k - 1 };
                assert(s2[k0] == x);
            }
        }
    } else {
        assert(s2[s.len() as int] == a);
        assert(s2.contains(a));
        assert forall|p: int, q: int| 0 <= p < q < s2.len() implies s2[p] != s2[q] by {
            if q == s.len() {
                assert(s2[p] == s[p]);
                if s2[p] == a {
                    assert(s.contains(a));
                }
            } else {
                assert(s2[p] == s[p] && s2[q] == s[q]);
            }
        }
        assert forall|x: Seq<char>| x != a implies #[trigger] s2.contains(x) == s.contains(
            x,
        ) by {
            if s2.contains(x) {
                let j = choose|j: int| 0 <= j < s2.len() && s2[j] == x;
                assert(j < s.len());
                assert(s[j] == x);
            }
            if s.contains(x) {
                let k = choose|k: int| 0 <= k < s.len() && s[k] == x;
                assert(s2[k] == x);
            }
        }
    }
}

/// Toggling the same actor twice is a strict flip and nothing more: the
/// two reports are opposite, and afterwards every identifier — the actor
/// included — is a member exactly as often as before.  A third toggle
/// therefore reports like the first.
pub proof fn lemma_toggle_flip(s: Seq<Seq<char>>, a: Seq<char>)
    requires
        likes_unique(s),
    ensures
        ({
            let (s1, act1) = spec_toggle(s, a);
            let (s2, act2) = spec_toggle(s1, a);
            &&& (act1 == LikeAction::Added <==> !s.contains(a))
            &&& act2 == (if act1 == LikeAction::Added {
                LikeAction::Removed
            } else {
                LikeAction::Added
            })
            &&& s2.len() == s.len()
            &&& likes_unique(s2)
            &&& forall|x: Seq<char>| #[trigger] s2.contains(x) == s.contains(x)
        }),
{
    let (s1, act1) = spec_toggle(s, a);
    lemma_toggle_properties(s, a);
    lemma_toggle_properties(s1, a);
}

/// Two togglers with distinct identities never erase each other: after
/// both have toggled, both are members, everyone else is as before, and
/// the set has grown by exactly two.
pub proof fn lemma_toggle_distinct(s: Seq<Seq<char>>, a: Seq<char>, b: Seq<char>)
    requires
        likes_unique(s),
        a != b,
        !s.contains(a),
        !s.contains(b),
    ensures
        ({
            let (s1, act1) = spec_toggle(s, a);
            let (s2, act2) = spec_toggle(s1, b);
            &&& act1 == LikeAction::Added
            &&& act2 == LikeAction::Added
            &&& s2.contains(a)
            &&& s2.contains(b)
            &&& s2.len() == s.len() + 2
            &&& likes_unique(s2)
            &&& forall|x: Seq<char>|
                x != a && x != b ==> #[trigger] s2.contains(x) == s.contains(x)
        }),
{
    let (s1, act1) = spec_toggle(s, a);
    lemma_toggle_properties(s, a);
    lemma_toggle_properties(s1, b);
}

/// In whichever order two distinct togglers run, the resulting membership
/// is the same: concurrent likes commute.
pub proof fn lemma_toggle_commutes(s: Seq<Seq<char>>, a: Seq<char>, b: Seq<char>)
    requires
        likes_unique(s),
        a != b,
    ensures
        ({
            let ab = spec_toggle(spec_toggle(s, a).0, b).0;
            let ba = spec_toggle(spec_toggle(s, b).0, a).0;
            forall|x: Seq<char>| #[trigger] ab.contains(x) == ba.contains(x)
        }),
{
    lemma_toggle_properties(s, a);
    lemma_toggle_properties(spec_toggle(s, a).0, b);
    lemma_toggle_properties(s, b);
    lemma_toggle_properties(spec_toggle(s, b).0, a);
}

/// Flips `actor`'s membership in a liker list, in one step against the
/// list itself: removes the actor if present (reporting `Removed`),
/// appends the actor if absent (reporting `Added`).
pub fn toggle_membership(likes: &mut Vec<String>, actor: &str) -> (r: LikeAction)
    requires
        likes_unique(old(likes).deep_view()),
    ensures
        ({
            let (s2, act) = spec_toggle(old(likes).deep_view(), actor@);
            final(likes).deep_view() == s2 && r == act
        }),
{
    let ghost s = old(likes).deep_view();
    let mut i: usize = 0;
    while i < likes.len()
        invariant
            i <= likes.len(),
            s == old(likes).deep_view(),
            s == likes.deep_view(),
            likes_unique(s),
            forall|j: int| 0 <= j < i ==> s[j] != actor@,
        decreases likes.len() - i,
    {
        let hit = likes[i].as_str().eq(actor);
        if hit {
            proof {
                assert(s == old(likes).deep_view());
                assert(s[i as int] == actor@);
                assert(s.contains(actor@));
                let ix = s.index_of(actor@);
                assert(0 <= ix < s.len() && s[ix] == actor@);
                if ix < i {
                    assert(s[ix] != s[i as int]);
                }
                if i < ix {
                    assert(s[i as int] != s[ix]);
                }
                assert(ix == i);
                assert(spec_toggle(s, actor@) == (s.remove(i as int), LikeAction::Removed));
            }
            likes.remove(i);
            proof {
                assert(likes.deep_view() =~= s.remove(i as int));
            }
            return LikeAction::Removed;
        }
        i = i + 1;
    }
    proof {
        if s.contains(actor@) {
            let j = choose|j: int| 0 <= j < s.len() && s[j] == actor@;
            assert(s[j] != actor@);
        }
    }
    likes.push(actor.to_owned());
    proof {
        assert(likes.deep_view() =~= s.push(actor@));
    }
    LikeAction::Added
}

// --- Hashtags derived from a post's text. ---

/// The hashtag tokens of a text: for each `#` that begins a run of word
/// characters, the run itself (without the `#`), left to right, scanning
/// past each tag before looking for the next.
pub open spec fn spec_hashtags(s: Seq<char>) -> Seq<Seq<char>>
    decreases s.len(),
    via spec_hashtags_dec
{
    if s.len() == 0 {
        Seq::empty()
    } else if s[0] == '#' && s.len() >= 2 && is_word_char(s[1]) {
        let k = word_run_len(s, 1);
        seq![s.subrange(1, 1 + k)] + spec_hashtags(s.subrange(1 + k, s.len() as int))
    } else {
        spec_hashtags(s.drop_first())
    }
}

#[via_fn]
proof fn spec_hashtags_dec(s: Seq<char>) {
    if s.len() > 0 && s[0] == '#' && s.len() >= 2 && is_word_char(s[1]) {
        crate::scan::lemma_word_run_len_bounds(s, 1);
    }
}

/// Derives the hashtag tokens of a post's text.  Done once at creation;
/// never recomputed.
pub fn extract_hashtags(content: &str) -> (r: Vec<String>)
    ensures
        r.deep_view() == spec_hashtags(content@),
{
    let ghost sv = content@;
    let n = content.unicode_len();
    let mut out: Vec<String> = Vec::new();
    let mut pos: usize = 0;
    proof {
        assert(sv.subrange(0, sv.len() as int) =~= sv);
        assert(out.deep_view() + spec_hashtags(sv) =~= spec_hashtags(sv));
    }
    while pos < n
        invariant
            pos <= n,
            n as nat == sv.len(),
            sv == content@,
            out.deep_view() + spec_hashtags(sv.subrange(pos as int, sv.len() as int))
                == spec_hashtags(sv),
        decreases n - pos,
    {
        let ghost t = sv.subrange(pos as int, sv.len() as int);
        let c = content.get_char(pos);
        let starts_tag = c == '#' && pos + 1 < n && word_char(content.get_char(pos + 1));
        if starts_tag {
            let mut e: usize = pos + 1;
            while e < n && word_char_at(content, e)
                invariant
                    pos + 1 <= e <= n,
                    n as nat == sv.len(),
                    sv == content@,
                    forall|j: int| pos + 1 <= j < e ==> is_word_char(#[trigger] sv[j]),
                decreases n - e,
            {
                e = e + 1;
            }
            proof {
                assert forall|j: int| 1 <= j < e - pos implies is_word_char(#[trigger] t[j]) by {
                    assert(t[j] == sv[pos + j]);
                }
                if e < n {
                    assert(t[e - pos] == sv[e as int]);
                }
                lemma_word_run_len_is(t, 1, e - pos);
                assert(t[0] == '#' && t.len() >= 2 && is_word_char(t[1]));
                assert(t.subrange(1, e - pos) =~= sv.subrange(pos + 1, e as int));
                assert(t.subrange(e - pos, t.len() as int) =~= sv.subrange(
                    e as int,
                    sv.len() as int,
                ));
            }
            let tag = content.substring_char(pos + 1, e).to_owned();
            out.push(tag);
            proof {
                assert(out.deep_view() =~= out.deep_view().drop_last().push(sv.subrange(
                    pos + 1,
                    e as int,
                )));
                assert(out.deep_view() + spec_hashtags(sv.subrange(e as int, sv.len() as int))
                    =~= out.deep_view().drop_last() + spec_hashtags(t));
            }
            pos = e;
        } else {
            proof {
                assert(t[0] == c);
                if pos + 1 < n {
                    assert(t[1] == sv[pos + 1]);
                }
                assert(!(t[0] == '#' && t.len() >= 2 && is_word_char(t[1])));
                assert(t.drop_first() =~= sv.subrange(pos + 1, sv.len() as int));
            }
            pos = pos + 1;
        }
    }
    proof {
        assert(sv.subrange(n as int, sv.len() as int) =~= Seq::<char>::empty());
        assert(out.deep_view() + spec_hashtags(Seq::<char>::empty()) =~= out.deep_view());
    }
    out
}

fn word_char(c: char) -> (r: bool)
    ensures
        r == is_word_char(c),
{
    let u = c as u32;
    (48 <= u && u <= 57) || (65 <= u && u <= 90) || (97 <= u && u <= 122) || c == '_'
}

fn word_char_at(s: &str, i: usize) -> (r: bool)
    requires
        i < s@.len(),
    ensures
        r == is_word_char(s@[i as int]),
{
    word_char(s.get_char(i))
}

// --- Decoding a post's wire text: UTF-16 code units written in decimal. ---

/// What one comma-separated piece denotes: an optional `+`, then decimal
/// digits, valued when that value fits a code unit; anything else counts
/// as zero, as the lenient numeric parse of the wire format does.
pub open spec fn parse_u16_or_zero(seg: Seq<char>) -> u16 {
    let d = if seg.len() >= 1 && seg[0] == '+' {
        seg.drop_first()
    } else {
        seg
    };
    if d.len() >= 1 && all_digits(d) && val_of(d) <= 65535 {
        val_of(d) as u16
    } else {
        0
    }
}

/// The code units a raw text denotes: one per comma-separated piece.
pub open spec fn spec_units(s: Seq<char>) -> Seq<u16>
    decreases s.len(),
    via spec_units_dec
{
    let i = seq_first_index(s, ',');
    if i >= s.len() {
        seq![parse_u16_or_zero(s)]
    } else {
        seq![parse_u16_or_zero(s.take(i))] + spec_units(s.subrange(i + 1, s.len() as int))
    }
}

#[via_fn]
proof fn spec_units_dec(s: Seq<char>) {
    lemma_seq_first_index(s, ',');
}

/// What decoding the code units of a raw text gives: the decoded
/// characters, or nothing at all when the units are not valid UTF-16.
pub open spec fn spec_decoded_content(raw: Seq<char>) -> Seq<char> {
    match utf16_decoded(spec_units(raw)) {
        Some(t) => t,
        None => Seq::empty(),
    }
}

/// What `String::from_utf16` returns for a unit sequence, when it
/// succeeds.  Named only: a function of the units alone.
pub uninterp spec fn utf16_decoded(units: Seq<u16>) -> Option<Seq<char>>;

/// Relies on `String::from_utf16`: decodes UTF-16 code units into text, a
/// function of the units alone, failing exactly on invalid data.
#[verifier::external_body]
fn utf16_to_string(units: &Vec<u16>) -> (r: Option<String>)
    ensures
        match r {
            Some(s) => utf16_decoded(units@) == Some(s@),
            None => utf16_decoded(units@) is None,
        },
{
    String::from_utf16(units.as_slice()).ok()
}

/// Reads the piece of `s` at `[from, to)` as one code unit.
fn parse_unit(s: &str, from: usize, to: usize) -> (r: u16)
    requires
        from <= to <= s@.len(),
        s@.len() <= usize::MAX,
    ensures
        r == parse_u16_or_zero(s@.subrange(from as int, to as int)),
{
    let ghost seg = s@.subrange(from as int, to as int);
    let p: usize = if to > from && s.get_char(from) == '+' {
        from + 1
    } else {
        from
    };
    let ghost d = if seg.len() >= 1 && seg[0] == '+' {
        seg.drop_first()
    } else {
        seg
    };
    proof {
        assert(seg.len() >= 1 ==> seg[0] == s@[from as int]);
        assert(d =~= s@.subrange(p as int, to as int));
    }
    if p == to {
        return 0;
    }
    let mut acc: u32 = 0;
    let mut over = false;
    let mut j: usize = p;
    while j < to
        invariant
            p <= j <= to <= s@.len() <= usize::MAX,
            seg == s@.subrange(from as int, to as int),
            d == (if seg.len() >= 1 && seg[0] == '+' {
                seg.drop_first()
            } else {
                seg
            }),
            d == s@.subrange(p as int, to as int),
            all_digits(d.take(j - p)),
            !over ==> acc == val_of(d.take(j - p)) && acc <= 65535,
            over ==> val_of(d.take(j - p)) > 65535,
        decreases to - j,
    {
        let c = s.get_char(j);
        let u = c as u32;
        proof {
            assert(d[j - p] == s@[j as int]);
            assert(d.take(j - p + 1).drop_last() =~= d.take(j - p));
            assert(d.take(j - p + 1).last() == d[j - p]);
        }
        if u < 48 || u > 57 {
            proof {
                assert(!crate::digits::is_digit_char(d[j - p]));
                if all_digits(d) {
                    assert(crate::digits::is_digit_char(d[j - p]));
                }
                assert(!all_digits(d));
                assert(parse_u16_or_zero(seg) == 0);
            }
            return 0;
        }
        let dv = u - 48;
        if !over {
            acc = acc * 10 + dv;
            if acc > 65535 {
                over = true;
            }
        } else {
            proof {
                assert(val_of(d.take(j - p + 1)) == val_of(d.take(j - p)) * 10 + (dv as nat));
                assert(val_of(d.take(j - p)) * 10 >= val_of(d.take(j - p))) by (nonlinear_arith);
            }
        }
        j = j + 1;
    }
    proof {
        assert(d.take(to - p) =~= d);
    }
    if over {
        return 0;
    }
    proof {
        assert(d.len() >= 1 && all_digits(d) && val_of(d) <= 65535);
    }
    acc as u16
}

/// Splits a raw text at commas and reads each piece as one code unit.
pub fn parse_units(raw: &str) -> (r: Vec<u16>)
    ensures
        r@ == spec_units(raw@),
{
    let ghost sv = raw@;
    let n = raw.unicode_len();
    let mut out: Vec<u16> = Vec::new();
    let mut pos: usize = 0;
    proof {
        assert(sv.subrange(0, sv.len() as int) =~= sv);
        assert(out@ + spec_units(sv) =~= spec_units(sv));
    }
    loop
        invariant
            pos <= n,
            n as nat == sv.len(),
            sv == raw@,
            out@ + spec_units(sv.subrange(pos as int, sv.len() as int)) == spec_units(sv),
        decreases n - pos,
    {
        let ghost t = sv.subrange(pos as int, sv.len() as int);
        let d = find_char(raw, pos, ',');
        proof {
            assert forall|j: int| 0 <= j < d - pos implies t[j] != ',' by {
                assert(t[j] == sv[pos + j]);
            }
            if d < n {
                assert(t[d - pos] == sv[d as int]);
                lemma_seq_first_index_is(t, ',', d - pos);
            } else {
                lemma_seq_first_index_is(t, ',', t.len() as int);
            }
            assert(sv.subrange(pos as int, d as int) =~= t.take(d - pos));
        }
        let v = parse_unit(raw, pos, d);
        out.push(v);
        if d == n {
            proof {
                assert(t.take(d - pos) =~= t);
                assert(spec_units(t) == seq![parse_u16_or_zero(t)]);
                assert(out@ =~= out@.drop_last() + seq![v]);
                assert(out@.drop_last() + spec_units(t) =~= out@);
            }
            return out;
        }
        proof {
            assert(sv.subrange(d + 1, sv.len() as int) =~= t.subrange(d - pos + 1, t.len() as int));
            assert(spec_units(t) == seq![parse_u16_or_zero(t.take(d - pos))] + spec_units(
                sv.subrange(d + 1, sv.len() as int),
            ));
            assert(out@ =~= out@.drop_last() + seq![v]);
            assert(out@ + spec_units(sv.subrange(d + 1, sv.len() as int)) =~= out@.drop_last()
                + spec_units(t));
        }
        pos = d + 1;
    }
}

/// Decodes a post's raw wire text: comma-separated decimal UTF-16 code
/// units become the post's characters, or empty text when they are not
/// valid UTF-16.
pub fn decode_content(raw: &str) -> (r: String)
    ensures
        r@ == spec_decoded_content(raw@),
{
    let units = parse_units(raw);
    match utf16_to_string(&units) {
        Some(s) => s,
        None => String::new(),
    }
}

// --- Ranking the feed. ---

/// Posts ordered by like count, most liked first.
pub open spec fn ranked(s: Seq<Tweet>) -> bool {
    forall|i: int, j: int|
        0 <= i < j < s.len() ==> (#[trigger] s[i]).likes@.len() >= (#[trigger] s[j]).likes@.len()
}

/// Orders a feed by like count, most liked first; the same posts come
/// back, only rearranged.
pub fn rank_feed(tweets: Vec<Tweet>) -> (r: Vec<Tweet>)
    ensures
        ranked(r@),
        r@.to_multiset() == tweets@.to_multiset(),
{
    let mut input = tweets;
    let ghost orig = input@;
    let mut out: Vec<Tweet> = Vec::new();
    proof {
        assert(out@.to_multiset().add(input@.to_multiset()) =~= orig.to_multiset());
    }
    while input.len() > 0
        invariant
            out@.to_multiset().add(input@.to_multiset()) == orig.to_multiset(),
            ranked(out@),
            forall|i: int, j: int|
                0 <= i < out@.len() && 0 <= j < input@.len() ==> (#[trigger] out@[i]).likes@.len()
                    >= (#[trigger] input@[j]).likes@.len(),
        decreases input.len(),
    {
        let mut mi: usize = 0;
        let mut k: usize = 1;
        while k < input.len()
            invariant
                mi < k <= input.len(),
                forall|j: int|
                    0 <= j < k ==> input@[mi as int].likes@.len()
                        >= (#[trigger] input@[j]).likes@.len(),
            decreases input.len() - k,
        {
            if input[k].likes.len() > input[mi].likes.len() {
                mi = k;
            }
            k = k + 1;
        }
        let ghost before = input@;
        let ghost chosen = input@[mi as int];
        let ghost out_before = out@;
        let t = input.remove(mi);
        out.push(t);
        proof {
            assert(before.remove(mi as int).to_multiset() =~= before.to_multiset().remove(chosen));
            assert(out@ == out_before.push(chosen));
            assert(out_before.push(chosen).to_multiset() =~= out_before.to_multiset().insert(
                chosen,
            ));
            assert(before.contains(chosen));
            assert(before.to_multiset().count(chosen) > 0);
            assert(out@.to_multiset().add(input@.to_multiset()) =~= orig.to_multiset());
            assert forall|j: int| 0 <= j < input@.len() implies chosen.likes@.len() >= (
            #[trigger] input@[j]).likes@.len() by {
                let j0 = if j < mi { j } else { j + 1 };
                assert(input@[j] == before[j0]);
            }
        }
    }
    out
}

} // verus!
