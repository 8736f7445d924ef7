//! The serialized state after a replay, section by section.

use vstd::prelude::*;

verus! {

/// The bytes that the state is serialized to.
#[derive(Debug)]
pub struct StateSections {
    pub book: Vec<u8>,
    pub flow: Vec<u8>,
    pub refresh: Vec<u8>,
    pub profile: Vec<u8>,
    pub cvd: Vec<u8>,
    pub session: Vec<u8>,
}

/// A section of the state.
#[derive(Clone, Copy, Debug, PartialEq, Eq, Structural)]
pub enum StateSection {
    Book,
    Flow,
    Refresh,
    Profile,
    Cvd,
    Session,
}

impl StateSection {
    /// The section's name.
    pub open spec fn text(self) -> Seq<char> {
        match self {
            StateSection::Book => "BOOK"@,
            StateSection::Flow => "FLOW"@,
            StateSection::Refresh => "REFRESH"@,
            StateSection::Profile => "PROFILE"@,
            StateSection::Cvd => "CVD"@,
            StateSection::Session => "SESSION"@,
        }
    }

    /// The section's name.
    pub fn name(self) -> (r: &'static str)
        ensures
            r@ == self.text(),
    {
        match self {
            StateSection::Book => "BOOK",
            StateSection::Flow => "FLOW",
            StateSection::Refresh => "REFRESH",
            StateSection::Profile => "PROFILE",
            StateSection::Cvd => "CVD",
            StateSection::Session => "SESSION",
        }
    }
}

impl StateSections {
    /// The bytes of one section.
    pub open spec fn of(self, section: StateSection) -> Seq<u8> {
        match section {
            StateSection::Book => self.book@,
            StateSection::Flow => self.flow@,
            StateSection::Refresh => self.refresh@,
            StateSection::Profile => self.profile@,
            StateSection::Cvd => self.cvd@,
            StateSection::Session => self.session@,
        }
    }
}

/// The first section in which two states differ, in the order of the sections' declaration.
pub open spec fn difference(a: StateSections, b: StateSections) -> Option<StateSection> {
    if a.book@ != b.book@ {
        Some(StateSection::Book)
    } else if a.flow@ != b.flow@ {
        Some(StateSection::Flow)
    } else if a.refresh@ != b.refresh@ {
        Some(StateSection::Refresh)
    } else if a.profile@ != b.profile@ {
        Some(StateSection::Profile)
    } else if a.cvd@ != b.cvd@ {
        Some(StateSection::Cvd)
    } else if a.session@ != b.session@ {
        Some(StateSection::Session)
    } else {
        None
    }
}

/// No difference is found exactly where every section has the same bytes in both states.
pub proof fn law_no_difference(a: StateSections, b: StateSections)
    ensures
        difference(a, b) is None <==> forall|section: StateSection| #[trigger]
            a.of(section) == b.of(section),
{
    if difference(a, b) is Some {
        let section = difference(a, b)->0;
        assert(a.of(section) != b.of(section));
    }
}

/// Whether the bytes are the same.
fn same_bytes(a: &Vec<u8>, b: &Vec<u8>) -> (r: bool)
    ensures
        r == (a@ == b@),
{
    if a.len() != b.len() {
        return false;
    }
    let mut i: usize = 0;
    while i < a.len()
        invariant
            i <= a.len(),
            a.len() == b.len(),
            forall|j: int| 0 <= j < i ==> #[trigger] a@[j] == b@[j],
        decreases a.len() - i,
    {
        if a[i] != b[i] {
            assert(a@[i as int] != b@[i as int]);
            return false;
        }
        i += 1;
    }
    assert(a@ =~= b@);
    true
}

/// The first section in which two states differ.
pub fn first_diff(a: &StateSections, b: &StateSections) -> (r: Option<StateSection>)
    ensures
        r == difference(*a, *b),
{
    if !same_bytes(&a.book, &b.book) {
        Some(StateSection::Book)
    } else if !same_bytes(&a.flow, &b.flow) {
        Some(StateSection::Flow)
    } else if !same_bytes(&a.refresh, &b.refresh) {
        Some(StateSection::Refresh)
    } else if !same_bytes(&a.profile, &b.profile) {
        Some(StateSection::Profile)
    } else if !same_bytes(&a.cvd, &b.cvd) {
        Some(StateSection::Cvd)
    } else if !same_bytes(&a.session, &b.session) {
        Some(StateSection::Session)
    } else {
        None
    }
}

/// Two states differ in the section that is named, and in none that is named before it; they have
/// the same bytes in all six sections exactly where none is named.
pub proof fn law_first_difference(a: &StateSections, b: &StateSections, r: Option<StateSection>)
    requires
        call_ensures(first_diff, (a, b), r),
    ensures
        r is None <==> a.book@ == b.book@ && a.flow@ == b.flow@ && a.refresh@ == b.refresh@
            && a.profile@ == b.profile@ && a.cvd@ == b.cvd@ && a.session@ == b.session@,
        r == Some(StateSection::Book) <==> a.book@ != b.book@,
        r == Some(StateSection::Flow) ==> a.flow@ != b.flow@ && a.book@ == b.book@,
        r == Some(StateSection::Refresh) ==> a.refresh@ != b.refresh@ && a.book@ == b.book@
            && a.flow@ == b.flow@,
        r == Some(StateSection::Profile) ==> a.profile@ != b.profile@ && a.book@ == b.book@
            && a.flow@ == b.flow@ && a.refresh@ == b.refresh@,
        r == Some(StateSection::Cvd) ==> a.cvd@ != b.cvd@ && a.book@ == b.book@ && a.flow@
            == b.flow@ && a.refresh@ == b.refresh@ && a.profile@ == b.profile@,
        r == Some(StateSection::Session) ==> a.session@ != b.session@ && a.book@ == b.book@
            && a.flow@ == b.flow@ && a.refresh@ == b.refresh@ && a.profile@ == b.profile@ && a.cvd@
            == b.cvd@,
{
}

/// No two sections have the same name.
pub proof fn law_section_names_differ(
    a: StateSection,
    b: StateSection,
    r: &'static str,
    s: &'static str,
)
    requires
        a != b,
        call_ensures(StateSection::name, (a,), r),
        call_ensures(StateSection::name, (b,), s),
    ensures
        r@ != s@,
        a == StateSection::Book ==> r@ == "BOOK"@,
        a == StateSection::Cvd ==> r@ == "CVD"@,
        a == StateSection::Profile ==> r@ == "PROFILE"@,
        a == StateSection::Session ==> r@ == "SESSION"@,
{
    reveal_strlit("BOOK");
    reveal_strlit("FLOW");
    reveal_strlit("REFRESH");
    reveal_strlit("PROFILE");
    reveal_strlit("CVD");
    reveal_strlit("SESSION");
    assert("BOOK"@[0] != "FLOW"@[0]);
    assert("REFRESH"@[0] != "PROFILE"@[0]);
    assert("REFRESH"@[0] != "SESSION"@[0]);
    assert("PROFILE"@[0] != "SESSION"@[0]);
}

} // verus!
