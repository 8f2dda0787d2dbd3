//! Routing keys: the canonical address of one agent instance, derived from a
//! tenant namespace and the agent's IP address.

use vstd::prelude::*;
use vstd::string::*;

verus! {

/// Why a routing key could not be built.
#[derive(Debug, Clone, Copy, PartialEq, Eq, Structural)]
pub enum AddressError {
    /// The IP part was empty.
    EmptyIp,
}

/// The part of a routing key that follows the product prefix.
pub open spec fn endpoint_body(namespace: Seq<char>, ip: Seq<char>) -> Seq<char> {
    if namespace.len() == 0 {
        ip
    } else {
        namespace + seq![':'] + ip
    }
}

/// The routing key of `(namespace, ip)`: `jiascheduler:ins:<namespace>:<ip>`,
/// or `jiascheduler:ins:<ip>` when the namespace is empty.
pub open spec fn endpoint_spec(namespace: Seq<char>, ip: Seq<char>) -> Seq<char> {
    "jiascheduler:ins:"@ + endpoint_body(namespace, ip)
}

/// No character of `s` is a colon.
pub open spec fn colon_free(s: Seq<char>) -> bool {
    forall|i: int| 0 <= i < s.len() ==> s[i] != ':'
}

/// Renders the routing key of an agent instance. An empty `ip` is rejected.
pub fn get_endpoint(namespace: &str, ip: &str) -> (r: Result<String, AddressError>)
    ensures
        ip@.len() == 0 ==> r == Err::<String, AddressError>(AddressError::EmptyIp),
        ip@.len() != 0 ==> r is Ok && r->Ok_0@ == endpoint_spec(namespace@, ip@),
{
    if ip.is_empty() {
        return Err(AddressError::EmptyIp);
    }
    let mut key = String::from_str("jiascheduler:ins:");
    if !namespace.is_empty() {
        key.append(namespace);
        key.append(":");
        proof {
            reveal_strlit(":");
            assert(":"@ =~= seq![':']);
        }
    }
    key.append(ip);
    assert(key@ =~= endpoint_spec(namespace@, ip@));
    Ok(key)
}

proof fn lemma_prefix_cancel(p: Seq<char>, a: Seq<char>, b: Seq<char>)
    requires
        p + a == p + b,
    ensures
        a == b,
{
    assert(a =~= (p + a).subrange(p.len() as int, (p + a).len() as int));
    assert(b =~= (p + b).subrange(p.len() as int, (p + b).len() as int));
}

proof fn lemma_body_split(ns1: Seq<char>, ip1: Seq<char>, ns2: Seq<char>, ip2: Seq<char>)
    requires
        ns1.len() == ns2.len(),
        ns1 + seq![':'] + ip1 == ns2 + seq![':'] + ip2,
    ensures
        ns1 == ns2,
        ip1 == ip2,
{
    let b1 = ns1 + seq![':'] + ip1;
    let b2 = ns2 + seq![':'] + ip2;
    assert(ns1 =~= b1.subrange(0, ns1.len() as int));
    assert(ns2 =~= b2.subrange(0, ns2.len() as int));
    assert(ip1 =~= b1.subrange(ns1.len() as int + 1, b1.len() as int));
    assert(ip2 =~= b2.subrange(ns2.len() as int + 1, b2.len() as int));
}

/// The second pair splits the text of the first at a later colon: a colon
/// that the first pair has inside its IP is the second pair's separator.
pub open spec fn splits_later(
    ns1: Seq<char>,
    ip1: Seq<char>,
    ns2: Seq<char>,
    ip2: Seq<char>,
) -> bool {
    if ns1.len() == 0 {
        ns2.len() > 0 && ip1 == ns2 + seq![':'] + ip2
    } else {
        &&& ns2.len() > ns1.len()
        &&& ns2 == ns1 + seq![':'] + ns2.skip(ns1.len() as int + 1)
        &&& ip1 == ns2.skip(ns1.len() as int + 1) + seq![':'] + ip2
    }
}

/// The two pairs are different readings of one text: one of them takes as
/// its separator a colon that the other has inside its IP.
pub open spec fn confusable(ns1: Seq<char>, ip1: Seq<char>, ns2: Seq<char>, ip2: Seq<char>) -> bool {
    splits_later(ns1, ip1, ns2, ip2) || splits_later(ns2, ip2, ns1, ip1)
}

/// Two pairs get the same routing key exactly when they are the same pair
/// or two readings of one text. So the key is a function of the pair, and
/// distinct pairs get distinct keys wherever the separator cannot be taken
/// for a colon of the parts.
pub proof fn lemma_endpoint_collisions(
    ns1: Seq<char>,
    ip1: Seq<char>,
    ns2: Seq<char>,
    ip2: Seq<char>,
)
    ensures
        endpoint_spec(ns1, ip1) == endpoint_spec(ns2, ip2) <==> ((ns1 == ns2 && ip1 == ip2)
            || confusable(ns1, ip1, ns2, ip2)),
{
    let b1 = endpoint_body(ns1, ip1);
    let b2 = endpoint_body(ns2, ip2);
    if endpoint_spec(ns1, ip1) == endpoint_spec(ns2, ip2) {
        lemma_prefix_cancel("jiascheduler:ins:"@, b1, b2);
        assert(b1 == b2);
        if ns1.len() == 0 && ns2.len() == 0 {
            assert(ns1 =~= ns2);
        } else if ns1.len() == 0 {
            assert(splits_later(ns1, ip1, ns2, ip2));
        } else if ns2.len() == 0 {
            assert(splits_later(ns2, ip2, ns1, ip1));
        } else if ns1.len() == ns2.len() {
            lemma_body_split(ns1, ip1, ns2, ip2);
        } else if ns1.len() < ns2.len() {
            lemma_later_split(ns1, ip1, ns2, ip2);
        } else {
            lemma_later_split(ns2, ip2, ns1, ip1);
        }
    }
    if splits_later(ns1, ip1, ns2, ip2) {
        lemma_splits_later_same_body(ns1, ip1, ns2, ip2);
    }
    if splits_later(ns2, ip2, ns1, ip1) {
        lemma_splits_later_same_body(ns2, ip2, ns1, ip1);
    }
}

proof fn lemma_later_split(ns1: Seq<char>, ip1: Seq<char>, ns2: Seq<char>, ip2: Seq<char>)
    requires
        0 < ns1.len() < ns2.len(),
        ns1 + seq![':'] + ip1 == ns2 + seq![':'] + ip2,
    ensures
        splits_later(ns1, ip1, ns2, ip2),
{
    let b1 = ns1 + seq![':'] + ip1;
    let b2 = ns2 + seq![':'] + ip2;
    let n = ns1.len() as int;
    let rest = ns2.skip(n + 1);
    assert(b1[n] == ':');
    assert(b2[n] == ns2[n]);
    assert forall|i: int| 0 <= i < n implies ns2[i] == ns1[i] by {
        assert(b1[i] == ns1[i]);
        assert(b2[i] == ns2[i]);
    }
    assert(ns2 =~= ns1 + seq![':'] + rest);
    assert(ip1 =~= b1.skip(n + 1));
    assert(b2.skip(n + 1) =~= rest + seq![':'] + ip2);
}

proof fn lemma_splits_later_same_body(
    ns1: Seq<char>,
    ip1: Seq<char>,
    ns2: Seq<char>,
    ip2: Seq<char>,
)
    requires
        splits_later(ns1, ip1, ns2, ip2),
    ensures
        endpoint_spec(ns1, ip1) == endpoint_spec(ns2, ip2),
        !(ns1 == ns2 && ip1 == ip2),
{
    if ns1.len() > 0 {
        let rest = ns2.skip(ns1.len() as int + 1);
        assert(ns1 + seq![':'] + (rest + seq![':'] + ip2) =~= (ns1 + seq![':'] + rest) + seq![
            ':',
        ] + ip2);
    }
}

/// Distinct pairs get distinct routing keys wherever they are not two
/// readings of one text.
pub proof fn lemma_endpoint_injective(
    ns1: Seq<char>,
    ip1: Seq<char>,
    ns2: Seq<char>,
    ip2: Seq<char>,
)
    requires
        !confusable(ns1, ip1, ns2, ip2),
    ensures
        endpoint_spec(ns1, ip1) == endpoint_spec(ns2, ip2) <==> (ns1 == ns2 && ip1 == ip2),
{
    lemma_endpoint_collisions(ns1, ip1, ns2, ip2);
}

/// Two pairs cannot be two readings of one text when both IPs are free of
/// colons, when both namespaces are non-empty and free of colons, when both
/// namespaces are empty, or when one namespace is empty and its IP free of
/// colons.
pub proof fn lemma_colon_free_separates(
    ns1: Seq<char>,
    ip1: Seq<char>,
    ns2: Seq<char>,
    ip2: Seq<char>,
)
    requires
        (colon_free(ip1) && colon_free(ip2)) || (ns1.len() > 0 && ns2.len() > 0 && colon_free(
            ns1,
        ) && colon_free(ns2)) || (ns1.len() == 0 && ns2.len() == 0) || (ns1.len() == 0
            && colon_free(ip1)) || (ns2.len() == 0 && colon_free(ip2)),
    ensures
        !confusable(ns1, ip1, ns2, ip2),
{
    if splits_later(ns1, ip1, ns2, ip2) {
        lemma_splits_later_has_colons(ns1, ip1, ns2, ip2);
    }
    if splits_later(ns2, ip2, ns1, ip1) {
        lemma_splits_later_has_colons(ns2, ip2, ns1, ip1);
    }
}

proof fn lemma_splits_later_has_colons(
    ns1: Seq<char>,
    ip1: Seq<char>,
    ns2: Seq<char>,
    ip2: Seq<char>,
)
    requires
        splits_later(ns1, ip1, ns2, ip2),
    ensures
        !colon_free(ip1),
        ns2.len() > 0,
        ns1.len() > 0 ==> !colon_free(ns2),
{
    if ns1.len() == 0 {
        assert(ip1[ns2.len() as int] == ':');
    } else {
        let rest = ns2.skip(ns1.len() as int + 1);
        assert(ip1[rest.len() as int] == ':');
        assert((ns1 + seq![':'] + rest)[ns1.len() as int] == ':');
        assert(ns2[ns1.len() as int] == ':');
    }
}

} // verus!
