//! Actor decomposition: a raw bracketed token is split on `-`; the exact
//! shapes `Broker-<id>-<name>` and `Broker-<id>-<name>-<partition>` yield
//! structured identities, every other shape degrades to a generic named actor.

use vstd::prelude::*;

use crate::chars::{digit_val, is_digit};
use crate::order::{
    flip, lex2, lemma_str_cmp_eq, lemma_str_cmp_flip, lemma_str_cmp_trans, opt_u32_cmp,
    opt_u32_compare, str_cmp, str_compare, u32_cmp, chars_of, Cmp,
};

verus! {

pub open spec fn all_digits(s: Seq<char>) -> bool {
    forall|k: int| 0 <= k < s.len() ==> is_digit(#[trigger] s[k])
}

/// Value of a sequence of decimal digits, most significant first.
pub open spec fn dec_val(s: Seq<char>) -> int
    decreases s.len(),
{
    if s.len() == 0 {
        0
    } else {
        dec_val(s.drop_last()) * 10 + digit_val(s.last())
    }
}

/// What `str::parse::<u32>` accepts: an optional leading `+`, then one or
/// more decimal digits whose value fits in a `u32`.
pub open spec fn parse_u32_spec(s: Seq<char>) -> Option<u32> {
    let d = if s.len() > 0 && s[0] == '+' {
        s.drop_first()
    } else {
        s
    };
    if d.len() > 0 && all_digits(d) && dec_val(d) <= u32::MAX as int {
        Some(dec_val(d) as u32)
    } else {
        None
    }
}

/// A digit prefix never has a larger value than the whole digit string.
pub proof fn lemma_dec_val_prefix_mono(s: Seq<char>, i: int)
    requires
        all_digits(s),
        0 <= i <= s.len(),
    ensures
        dec_val(s.take(i)) <= dec_val(s),
        dec_val(s.take(i)) >= 0,
    decreases s.len(),
{
    if s.len() == 0 {
        assert(s.take(i) =~= s);
    } else if i == s.len() {
        assert(s.take(i) =~= s);
        lemma_dec_val_prefix_mono(s.drop_last(), i - 1);
    } else {
        assert(s.drop_last().take(i) =~= s.take(i));
        lemma_dec_val_prefix_mono(s.drop_last(), i);
        assert(dec_val(s.drop_last()) * 10 >= dec_val(s.drop_last())) by {
            lemma_dec_val_prefix_mono(s.drop_last(), s.len() - 1);
            assert(s.drop_last().take(s.len() - 1) =~= s.drop_last());
        }
    }
}

fn parse_u32_digits(v: &Vec<char>, from: usize) -> (r: Option<u32>)
    requires
        from <= v@.len(),
    ensures
        ({
            let d = v@.skip(from as int);
            r == (if d.len() > 0 && all_digits(d) && dec_val(d) <= u32::MAX as int {
                Some(dec_val(d) as u32)
            } else {
                Option::<u32>::None
            })
        }),
{
    let ghost d = v@.skip(from as int);
    let n = v.len();
    if from >= n {
        return None;
    }
    let mut acc: u64 = 0;
    let mut j: usize = from;
    while j < n
        invariant
            from <= j <= n,
            n == v@.len(),
            d == v@.skip(from as int),
            all_digits(d.take(j - from)),
            acc == dec_val(d.take(j - from)),
            acc <= u32::MAX,
        decreases n - j,
    {
        let c = v[j];
        let cu = c as u32;
        if !(48 <= cu && cu <= 57) {
            assert(!is_digit(d[j - from]));
            return None;
        }
        let dv = (cu - 48) as u64;
        let next: u64 = acc * 10 + dv;
        assert(d.take(j + 1 - from).drop_last() =~= d.take(j - from));
        assert(d.take(j + 1 - from).last() == d[j - from]);
        if next > u32::MAX as u64 {
            proof {
                if all_digits(d) && dec_val(d) <= u32::MAX as int {
                    lemma_dec_val_prefix_mono(d, j + 1 - from);
                }
            }
            return None;
        }
        acc = next;
        j += 1;
    }
    assert(d.take(n - from) =~= d);
    Some(acc as u32)
}

/// What `str::parse::<u32>` returns on this string.
pub fn parse_u32(s: &str) -> (r: Option<u32>)
    ensures
        r == parse_u32_spec(s@),
{
    let v = chars_of(s);
    let n = v.len();
    if n > 0 && v[0] == '+' {
        assert(v@.skip(1) =~= s@.drop_first());
        parse_u32_digits(&v, 1)
    } else {
        assert(v@.skip(0) =~= s@);
        parse_u32_digits(&v, 0)
    }
}

/// Split on `-` from position `i`, with `cur` the part read so far.
pub open spec fn split_dash_acc(s: Seq<char>, i: int, cur: Seq<char>) -> Seq<Seq<char>>
    decreases s.len() - i,
{
    if i < 0 || i >= s.len() {
        seq![cur]
    } else if s[i] == '-' {
        seq![cur] + split_dash_acc(s, i + 1, Seq::empty())
    } else {
        split_dash_acc(s, i + 1, cur.push(s[i]))
    }
}

/// The parts of `s` split on the literal `-`, as `str::split('-')` yields
/// them: empty parts are kept, and the empty string has one empty part.
pub open spec fn split_dash(s: Seq<char>) -> Seq<Seq<char>> {
    split_dash_acc(s, 0, Seq::empty())
}

pub open spec fn strs_view(v: Seq<String>) -> Seq<Seq<char>> {
    v.map_values(|t: String| t@)
}

fn split_from(s: &str, v: &Vec<char>, i: usize, start: usize) -> (parts: Vec<String>)
    requires
        v@ == s@,
        start <= i <= v@.len(),
    ensures
        strs_view(parts@) == split_dash_acc(v@, i as int, v@.subrange(start as int, i as int)),
    decreases v@.len() - i,
{
    let n = v.len();
    if i >= n {
        let part = s.substring_char(start, i).to_owned();
        let parts = vec![part];
        assert(strs_view(parts@) =~= seq![v@.subrange(start as int, i as int)]);
        parts
    } else if v[i] == '-' {
        let part = s.substring_char(start, i).to_owned();
        let mut rest = split_from(s, v, i + 1, i + 1);
        let mut parts = vec![part];
        parts.append(&mut rest);
        assert(v@.subrange(i + 1, i + 1) =~= Seq::<char>::empty());
        assert(strs_view(parts@) =~= seq![v@.subrange(start as int, i as int)] + split_dash_acc(
            v@,
            i + 1,
            Seq::empty(),
        ));
        parts
    } else {
        let parts = split_from(s, v, i + 1, start);
        assert(v@.subrange(start as int, i + 1) =~= v@.subrange(start as int, i as int).push(
            v@[i as int],
        ));
        parts
    }
}

/// The parts of `s` split on `-`, each as its own `String`.
pub fn dash_parts(s: &str) -> (parts: Vec<String>)
    ensures
        strs_view(parts@) == split_dash(s@),
{
    let v = chars_of(s);
    let parts = split_from(s, &v, 0, 0);
    assert(v@.subrange(0, 0) =~= Seq::<char>::empty());
    parts
}

/// Identity of a log-emitting component.
#[derive(Debug)]
pub struct Actor {
    pub broker: Option<u32>,
    pub name: String,
    pub partition: Option<u32>,
}

/// Mathematical model of an [`Actor`].
#[verifier::ext_equal]
pub struct ActorV {
    pub broker: Option<u32>,
    pub name: Seq<char>,
    pub partition: Option<u32>,
}

impl View for Actor {
    type V = ActorV;

    open spec fn view(&self) -> ActorV {
        ActorV { broker: self.broker, name: self.name@, partition: self.partition }
    }
}

/// The actor an exactly-3-part or exactly-4-part `Broker-...` token denotes;
/// every other shape is the whole token as a generic name.
pub open spec fn actor_of(token: Seq<char>) -> ActorV {
    let parts = split_dash(token);
    if parts.len() == 3 && parts[0] == "Broker"@ {
        ActorV { broker: parse_u32_spec(parts[1]), name: parts[2], partition: None }
    } else if parts.len() == 4 && parts[0] == "Broker"@ {
        ActorV {
            broker: parse_u32_spec(parts[1]),
            name: parts[2],
            partition: parse_u32_spec(parts[3]),
        }
    } else {
        ActorV { broker: None, name: token, partition: None }
    }
}

/// Decompose a raw actor token. Decomposition never fails: a token outside
/// the fixed 3-or-4-part `Broker` shapes becomes a generic named actor.
pub fn decompose_actor(token: &str) -> (a: Actor)
    ensures
        a@ == actor_of(token@),
{
    let parts = dash_parts(token);
    let is_broker = parts.len() >= 1 && matches!(str_compare(&parts[0], "Broker"), Cmp::Eq);
    proof {
        if parts@.len() >= 1 {
            lemma_str_cmp_eq(parts@[0]@, "Broker"@);
            assert(strs_view(parts@)[0] == parts@[0]@);
        }
    }
    if parts.len() == 3 && is_broker {
        let a = Actor {
            broker: parse_u32(&parts[1]),
            name: parts[2].clone(),
            partition: None,
        };
        assert(strs_view(parts@)[1] == parts@[1]@);
        assert(strs_view(parts@)[2] == parts@[2]@);
        assert(a@ =~= actor_of(token@));
        a
    } else if parts.len() == 4 && is_broker {
        let a = Actor {
            broker: parse_u32(&parts[1]),
            name: parts[2].clone(),
            partition: parse_u32(&parts[3]),
        };
        assert(strs_view(parts@)[1] == parts@[1]@);
        assert(strs_view(parts@)[2] == parts@[2]@);
        assert(strs_view(parts@)[3] == parts@[3]@);
        assert(a@ =~= actor_of(token@));
        a
    } else {
        let a = Actor { broker: None, name: s_to_owned(token), partition: None };
        assert(a@ =~= actor_of(token@));
        a
    }
}

fn s_to_owned(s: &str) -> (r: String)
    ensures
        r@ == s@,
{
    s.to_owned()
}

/// Actors ordered as the record order orders them: broker id, then name,
/// then partition id.
pub open spec fn actor_cmp(a: ActorV, b: ActorV) -> Cmp {
    lex2(
        opt_u32_cmp(a.broker, b.broker),
        lex2(str_cmp(a.name, b.name), opt_u32_cmp(a.partition, b.partition)),
    )
}

pub fn actor_compare(a: &Actor, b: &Actor) -> (r: Cmp)
    ensures
        r == actor_cmp(a@, b@),
{
    let c1 = opt_u32_compare(&a.broker, &b.broker);
    if !matches!(c1, Cmp::Eq) {
        return c1;
    }
    let c2 = str_compare(a.name.as_str(), b.name.as_str());
    if !matches!(c2, Cmp::Eq) {
        return c2;
    }
    opt_u32_compare(&a.partition, &b.partition)
}

pub proof fn lemma_actor_cmp_eq(a: ActorV, b: ActorV)
    ensures
        (actor_cmp(a, b) == Cmp::Eq) <==> (a == b),
{
    lemma_str_cmp_eq(a.name, b.name);
    if actor_cmp(a, b) == Cmp::Eq {
        assert(a =~= b);
    }
}

pub proof fn lemma_actor_cmp_flip(a: ActorV, b: ActorV)
    ensures
        actor_cmp(b, a) == flip(actor_cmp(a, b)),
{
    lemma_str_cmp_flip(a.name, b.name);
}

pub proof fn lemma_actor_cmp_trans(a: ActorV, b: ActorV, c: ActorV)
    requires
        actor_cmp(a, b) == Cmp::Lt,
        actor_cmp(b, c) == Cmp::Lt,
    ensures
        actor_cmp(a, c) == Cmp::Lt,
{
    lemma_str_cmp_eq(a.name, b.name);
    lemma_str_cmp_eq(b.name, c.name);
    if str_cmp(a.name, b.name) == Cmp::Lt && str_cmp(b.name, c.name) == Cmp::Lt {
        lemma_str_cmp_trans(a.name, b.name, c.name);
    }
}

} // verus!
