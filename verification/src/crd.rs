//! The specifications of the custom resources that configure event processing:
//! `Rule`, `Broker` and `RuleBinding` (API group `kubevent.io`, version `v1alpha1`).
use vstd::prelude::*;

verus! {

/// What a `Rule` resource asks for: the kind of rule that applies it and, for
/// the `type` rule, the event types that pass.
#[derive(Debug)]
pub struct RuleSpec {
    pub kind: String,
    pub types: Option<Vec<String>>,
}

/// The model of a `RuleSpec`.
pub struct RuleSpecView {
    pub kind: Seq<char>,
    pub types: Option<Seq<Seq<char>>>,
}

impl View for RuleSpec {
    type V = RuleSpecView;

    open spec fn view(&self) -> RuleSpecView {
        RuleSpecView { kind: self.kind@, types: self.types.deep_view() }
    }
}

impl DeepView for RuleSpec {
    type V = RuleSpecView;

    open spec fn deep_view(&self) -> RuleSpecView {
        self@
    }
}

/// What a `Broker` resource asks for: the kind of broker that delivers, and
/// the connection settings handed to it.
#[derive(Debug)]
pub struct BrokerSpec {
    pub kind: String,
    pub uri: Option<String>,
    pub user: Option<String>,
    pub password: Option<String>,
    pub token: Option<String>,
    pub ca: Option<String>,
}

/// The model of a `BrokerSpec`.
pub struct BrokerSpecView {
    pub kind: Seq<char>,
    pub uri: Option<Seq<char>>,
    pub user: Option<Seq<char>>,
    pub password: Option<Seq<char>>,
    pub token: Option<Seq<char>>,
    pub ca: Option<Seq<char>>,
}

impl View for BrokerSpec {
    type V = BrokerSpecView;

    open spec fn view(&self) -> BrokerSpecView {
        BrokerSpecView {
            kind: self.kind@,
            uri: self.uri.deep_view(),
            user: self.user.deep_view(),
            password: self.password.deep_view(),
            token: self.token.deep_view(),
            ca: self.ca.deep_view(),
        }
    }
}

impl DeepView for BrokerSpec {
    type V = BrokerSpecView;

    open spec fn deep_view(&self) -> BrokerSpecView {
        self@
    }
}

/// What a `RuleBinding` resource asks for: that the named rule applies to the
/// events sent to each of the named brokers.
#[derive(Debug)]
pub struct RuleBindingSpec {
    pub rule: String,
    pub brokers: Vec<String>,
}

/// The model of a `RuleBindingSpec`.
pub struct RuleBindingSpecView {
    pub rule: Seq<char>,
    pub brokers: Seq<Seq<char>>,
}

impl View for RuleBindingSpec {
    type V = RuleBindingSpecView;

    open spec fn view(&self) -> RuleBindingSpecView {
        RuleBindingSpecView { rule: self.rule@, brokers: self.brokers.deep_view() }
    }
}

/// A copy of a list of names.
pub fn clone_names(names: &Vec<String>) -> (res: Vec<String>)
    ensures
        res.deep_view() == names.deep_view(),
{
    let mut res: Vec<String> = Vec::new();
    let mut i: usize = 0;
    while i < names.len()
        invariant
            i <= names.len(),
            res.len() == i,
            forall|j: int| 0 <= j < i ==> (#[trigger] res@[j])@ == names@[j]@,
        decreases names.len() - i,
    {
        res.push(names[i].clone());
        i = i + 1;
    }
    assert(res.deep_view() =~= names.deep_view());
    res
}

/// A copy of an optional text.
pub fn clone_text(t: &Option<String>) -> (res: Option<String>)
    ensures
        res.deep_view() == t.deep_view(),
{
    match t {
        Some(s) => Some(s.clone()),
        None => None,
    }
}

impl Clone for RuleSpec {
    fn clone(&self) -> (res: Self)
        ensures
            res@ == self@,
    {
        let types = match &self.types {
            Some(ts) => Some(clone_names(ts)),
            None => None,
        };
        RuleSpec { kind: self.kind.clone(), types }
    }
}

impl Clone for BrokerSpec {
    fn clone(&self) -> (res: Self)
        ensures
            res@ == self@,
    {
        BrokerSpec {
            kind: self.kind.clone(),
            uri: clone_text(&self.uri),
            user: clone_text(&self.user),
            password: clone_text(&self.password),
            token: clone_text(&self.token),
            ca: clone_text(&self.ca),
        }
    }
}

impl Clone for RuleBindingSpec {
    fn clone(&self) -> (res: Self)
        ensures
            res@ == self@,
    {
        RuleBindingSpec { rule: self.rule.clone(), brokers: clone_names(&self.brokers) }
    }
}

} // verus!
