//! Capability grants: which operations of a peer others may call.

use crate::bootstrap::{same_text, RECEIVER};
use vstd::prelude::*;
use vstd::string::*;

verus! {

/// A grant as a mathematical value.
#[verifier::ext_equal]
pub struct GrantView {
    /// The name by which the grant is found again.
    pub tag: Seq<char>,
    /// Whether anybody may use the grant, without a secret.
    pub unrestricted: bool,
    /// The operations that the grant opens, each with the module that holds
    /// it.
    pub functions: Seq<(Seq<char>, Seq<char>)>,
}

impl GrantView {
    /// Whether the grant lets a caller that shows no secret call `function`
    /// of the module `zome`.
    pub open spec fn allows(self, zome: Seq<char>, function: Seq<char>) -> bool {
        self.unrestricted && self.functions.contains((zome, function))
    }

    /// The grant that opens the receiver of the module `zome` to everybody,
    /// and nothing else.
    pub open spec fn receiver(zome: Seq<char>) -> GrantView {
        GrantView { tag: Seq::empty(), unrestricted: true, functions: seq![(zome, RECEIVER@)] }
    }
}

/// Whether one of `grants` lets a caller that shows no secret call
/// `function` of the module `zome`.
pub open spec fn allowed(grants: Seq<GrantView>, zome: Seq<char>, function: Seq<char>) -> bool {
    exists|i: int| 0 <= i < grants.len() && (#[trigger] grants[i]).allows(zome, function)
}

/// The view of one granted operation.
pub open spec fn function_view(function: (String, String)) -> (Seq<char>, Seq<char>) {
    (function.0@, function.1@)
}

/// A grant: a list of operations, and who may call them.
#[derive(Debug, Clone, PartialEq)]
pub struct CapGrant {
    tag: String,
    unrestricted: bool,
    functions: Vec<(String, String)>,
}

impl View for CapGrant {
    type V = GrantView;

    closed spec fn view(&self) -> GrantView {
        GrantView {
            tag: self.tag@,
            unrestricted: self.unrestricted,
            functions: self.functions@.map_values(|f: (String, String)| function_view(f)),
        }
    }
}

/// The views of a sequence of grants, in order.
pub open spec fn grant_views(grants: Seq<CapGrant>) -> Seq<GrantView> {
    grants.map_values(|g: CapGrant| g@)
}

impl CapGrant {
    /// A grant of `functions`, each given as a module and an operation of
    /// it, found again by `tag`.
    pub fn new(tag: String, unrestricted: bool, functions: Vec<(String, String)>) -> (grant:
        CapGrant)
        ensures
            grant@ == (GrantView {
                tag: tag@,
                unrestricted,
                functions: functions@.map_values(|f: (String, String)| function_view(f)),
            }),
    {
        CapGrant { tag, unrestricted, functions }
    }

    /// The grant that a peer makes when it registers: everybody may call the
    /// receiver of the module `zome`, and nothing else.
    pub fn receiver(zome: &str) -> (grant: CapGrant)
        ensures
            grant@ == GrantView::receiver(zome@),
    {
        let mut functions: Vec<(String, String)> = Vec::new();
        functions.push((String::from_str(zome), String::from_str(RECEIVER)));
        let grant = CapGrant { tag: String::new(), unrestricted: true, functions };
        assert(grant@.functions =~= seq![(zome@, RECEIVER@)]);
        grant
    }

    /// The name by which the grant is found again.
    pub fn tag(&self) -> (tag: &String)
        ensures
            tag@ == self@.tag,
    {
        &self.tag
    }

    /// Whether anybody may use the grant, without a secret.
    pub fn is_unrestricted(&self) -> (unrestricted: bool)
        ensures
            unrestricted == self@.unrestricted,
    {
        self.unrestricted
    }

    /// The operations that the grant opens, each with the module that holds
    /// it.
    pub fn functions(&self) -> (functions: &Vec<(String, String)>)
        ensures
            functions@.map_values(|f: (String, String)| function_view(f)) == self@.functions,
    {
        &self.functions
    }

    /// Whether the grant lets a caller that shows no secret call `function`
    /// of the module `zome`.
    pub fn allows(&self, zome: &str, function: &str) -> (allowed: bool)
        ensures
            allowed == self@.allows(zome@, function@),
    {
        if !self.unrestricted {
            return false;
        }
        let mut i: usize = 0;
        while i < self.functions.len()
            invariant
                i <= self.functions.len(),
                self.unrestricted,
                forall|j: int| 0 <= j < i ==> (#[trigger] self@.functions[j]) != (zome@, function@),
            decreases self.functions.len() - i,
        {
            let granted = &self.functions[i];
            if same_text(granted.0.as_str(), zome) && same_text(granted.1.as_str(), function) {
                proof {
                    let found = self@.functions[i as int];
                    assert(found == function_view(self.functions@[i as int]));
                    assert(found.0 == zome@ && found.1 == function@);
                    assert(found == (zome@, function@));
                    assert(self@.functions.contains(found));
                }
                return true;
            }
            assert(self@.functions[i as int] == function_view(self.functions@[i as int]));
            i += 1;
        }
        false
    }

    /// A fresh copy of this grant.
    pub fn duplicate(&self) -> (copy: CapGrant)
        ensures
            copy@ == self@,
    {
        let mut functions: Vec<(String, String)> = Vec::new();
        let mut i: usize = 0;
        while i < self.functions.len()
            invariant
                i <= self.functions.len(),
                functions@.map_values(|f: (String, String)| function_view(f))
                    == self@.functions.take(i as int),
            decreases self.functions.len() - i,
        {
            let ghost before = functions@;
            let granted = &self.functions[i];
            functions.push((granted.0.clone(), granted.1.clone()));
            proof {
                assert(functions@.map_values(|f: (String, String)| function_view(f))
                    =~= before.map_values(|f: (String, String)| function_view(f)).push(
                    function_view(self.functions@[i as int]),
                ));
                assert(self@.functions.take(i + 1) =~= self@.functions.take(i as int).push(
                    self@.functions[i as int],
                ));
            }
            i += 1;
        }
        assert(self@.functions.take(self@.functions.len() as int) =~= self@.functions);
        let copy = CapGrant { tag: self.tag.clone(), unrestricted: self.unrestricted, functions };
        assert(copy@ =~~= self@);
        copy
    }
}

/// Whether one of `grants` lets a caller that shows no secret call
/// `function` of the module `zome`.
pub fn any_allows(grants: &Vec<CapGrant>, zome: &str, function: &str) -> (found: bool)
    ensures
        found == allowed(grant_views(grants@), zome@, function@),
{
    let mut i: usize = 0;
    while i < grants.len()
        invariant
            i <= grants.len(),
            forall|j: int| 0 <= j < i ==> !(#[trigger] grant_views(grants@)[j]).allows(zome@, function@),
        decreases grants.len() - i,
    {
        if grants[i].allows(zome, function) {
            assert(grant_views(grants@)[i as int].allows(zome@, function@));
            return true;
        }
        assert(grant_views(grants@)[i as int] == grants@[i as int]@);
        i += 1;
    }
    false
}

} // verus!
