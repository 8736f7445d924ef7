//! The sections that a checkpoint is restored from.

use super::error::{ReplayError, Result, SectionName};
use super::frames::{Section, SectionLayout, SectionTag};
use vstd::prelude::*;

verus! {

/// The sections to restore the book and the profile from.
#[derive(Debug)]
pub struct RestoreSet<'a> {
    pub book: &'a Section,
    pub flow: &'a Section,
    pub refresh: &'a Section,
    pub profile: &'a Section,
    pub cvd: &'a Section,
}

/// Where the first section with this identity stands, if there is one.
pub open spec fn section_index(sections: Seq<Section>, id: u16) -> Option<int>
    decreases sections.len(),
{
    if sections.len() == 0 {
        None
    } else if sections[0].id == id {
        Some(0)
    } else {
        match section_index(sections.skip(1), id) {
            Some(i) => Some(i + 1),
            None => None,
        }
    }
}

proof fn lemma_section_index(sections: Seq<Section>, id: u16, k: int)
    requires
        0 <= k <= sections.len(),
        forall|i: int| 0 <= i < k ==> (#[trigger] sections[i]).id != id,
    ensures
        k == sections.len() ==> section_index(sections, id) is None,
        k < sections.len() && sections[k].id == id ==> section_index(sections, id) == Some(k),
    decreases k,
{
    if k > 0 {
        assert(sections[0].id != id);
        let rest = sections.skip(1);
        assert forall|i: int| 0 <= i < k - 1 implies (#[trigger] rest[i]).id != id by {
            assert(rest[i] == sections[i + 1]);
        }
        lemma_section_index(rest, id, k - 1);
    }
}

/// Whether the section is there, whatever its version.
pub open spec fn has_section(sections: Seq<Section>, tag: SectionTag) -> bool {
    section_index(sections, tag.id) is Some
}

/// The first section with the tag's identity.
pub open spec fn section_of(sections: Seq<Section>, tag: SectionTag) -> Section {
    sections[section_index(sections, tag.id)->0]
}

/// Whether the section has a version other than the tag's.
pub open spec fn other_version(sections: Seq<Section>, tag: SectionTag) -> bool {
    section_of(sections, tag).version != tag.version
}

/// The failure that a section's version is.
pub open spec fn version_error(
    sections: Seq<Section>,
    tag: SectionTag,
    section: SectionName,
) -> ReplayError {
    ReplayError::SectionVersion {
        section,
        found: section_of(sections, tag).version,
        expected: tag.version,
    }
}

/// The first thing that is wrong with a checkpoint's sections.
pub open spec fn restore_error(sections: Seq<Section>, layout: SectionLayout) -> Option<
    ReplayError,
> {
    if !has_section(sections, layout.book) {
        Some(ReplayError::MissingSection(SectionName::Book))
    } else if other_version(sections, layout.book) {
        Some(version_error(sections, layout.book, SectionName::Book))
    } else if !has_section(sections, layout.flow) {
        Some(ReplayError::MissingSection(SectionName::Flow))
    } else if other_version(sections, layout.flow) {
        Some(version_error(sections, layout.flow, SectionName::Flow))
    } else if !has_section(sections, layout.profile) {
        Some(ReplayError::MissingSection(SectionName::Profile))
    } else if !has_section(sections, layout.cvd) {
        Some(ReplayError::MissingSection(SectionName::Cvd))
    } else if !has_section(sections, layout.refresh) {
        Some(ReplayError::MissingSection(SectionName::Refresh))
    } else if other_version(sections, layout.profile) {
        Some(version_error(sections, layout.profile, SectionName::Profile))
    } else if other_version(sections, layout.cvd) {
        Some(version_error(sections, layout.cvd, SectionName::Cvd))
    } else if other_version(sections, layout.refresh) {
        Some(version_error(sections, layout.refresh, SectionName::Refresh))
    } else {
        None
    }
}

/// Whether the set holds, for each part of the layout, the first section with its identity.
pub open spec fn restores(
    set: RestoreSet<'_>,
    sections: Seq<Section>,
    layout: SectionLayout,
) -> bool {
    &&& *set.book == section_of(sections, layout.book)
    &&& *set.flow == section_of(sections, layout.flow)
    &&& *set.refresh == section_of(sections, layout.refresh)
    &&& *set.profile == section_of(sections, layout.profile)
    &&& *set.cvd == section_of(sections, layout.cvd)
}

/// The first section with the given identity.
pub fn required<'a>(sections: &'a Vec<Section>, id: u16, name: SectionName) -> (r: Result<
    &'a Section,
>)
    ensures
        match r {
            Ok(section) => section_index(sections@, id) is Some && *section
                == sections@[section_index(sections@, id)->0],
            Err(error) => section_index(sections@, id) is None && error
                == ReplayError::MissingSection(name),
        },
{
    let mut i: usize = 0;
    while i < sections.len()
        invariant
            i <= sections.len(),
            forall|j: int| 0 <= j < i ==> (#[trigger] sections@[j]).id != id,
        decreases sections.len() - i,
    {
        if sections[i].id == id {
            proof {
                lemma_section_index(sections@, id, i as int);
            }
            return Ok(&sections[i]);
        }
        i += 1;
    }
    proof {
        lemma_section_index(sections@, id, i as int);
    }
    Err(ReplayError::MissingSection(name))
}

/// Picks the sections to restore from, and holds their versions to the layout's.
pub fn restore_sections<'a>(sections: &'a Vec<Section>, layout: &SectionLayout) -> (r: Result<
    RestoreSet<'a>,
>)
    ensures
        match r {
            Ok(set) => restore_error(sections@, *layout) is None && restores(
                set,
                sections@,
                *layout,
            ),
            Err(error) => restore_error(sections@, *layout) == Some(error),
        },
{
    let book: &Section = match required(sections, layout.book.id, SectionName::Book) {
        Ok(section) => section,
        Err(error) => return Err(error),
    };
    if book.version != layout.book.version {
        return Err(
            ReplayError::SectionVersion {
                section: SectionName::Book,
                found: book.version,
                expected: layout.book.version,
            },
        );
    }
    let flow: &Section = match required(sections, layout.flow.id, SectionName::Flow) {
        Ok(section) => section,
        Err(error) => return Err(error),
    };
    if flow.version != layout.flow.version {
        return Err(
            ReplayError::SectionVersion {
                section: SectionName::Flow,
                found: flow.version,
                expected: layout.flow.version,
            },
        );
    }
    let profile: &Section = match required(sections, layout.profile.id, SectionName::Profile) {
        Ok(section) => section,
        Err(error) => return Err(error),
    };
    let cvd: &Section = match required(sections, layout.cvd.id, SectionName::Cvd) {
        Ok(section) => section,
        Err(error) => return Err(error),
    };
    let refresh: &Section = match required(sections, layout.refresh.id, SectionName::Refresh) {
        Ok(section) => section,
        Err(error) => return Err(error),
    };
    if profile.version != layout.profile.version {
        return Err(
            ReplayError::SectionVersion {
                section: SectionName::Profile,
                found: profile.version,
                expected: layout.profile.version,
            },
        );
    }
    if cvd.version != layout.cvd.version {
        return Err(
            ReplayError::SectionVersion {
                section: SectionName::Cvd,
                found: cvd.version,
                expected: layout.cvd.version,
            },
        );
    }
    if refresh.version != layout.refresh.version {
        return Err(
            ReplayError::SectionVersion {
                section: SectionName::Refresh,
                found: refresh.version,
                expected: layout.refresh.version,
            },
        );
    }
    Ok(RestoreSet { book, flow, refresh, profile, cvd })
}

/// Whether the section is the first of that identity in the list.
pub open spec fn first_with(sections: Seq<Section>, id: u16, section: Section) -> bool {
    exists|i: int|
        0 <= i < sections.len() && #[trigger] sections[i] == section && section.id == id && forall|
            j: int,
        |
            0 <= j < i ==> (#[trigger] sections[j]).id != id
}

proof fn lemma_first_with(sections: Seq<Section>, id: u16)
    ensures
        section_index(sections, id) is Some ==> 0 <= section_index(sections, id)->0
            < sections.len() && first_with(
            sections,
            id,
            sections[section_index(sections, id)->0],
        ),
        section_index(sections, id) is None ==> forall|i: int|
            0 <= i < sections.len() ==> (#[trigger] sections[i]).id != id,
    decreases sections.len(),
{
    if sections.len() > 0 && sections[0].id != id {
        let rest = sections.skip(1);
        lemma_first_with(rest, id);
        if section_index(rest, id) is Some {
            let at = section_index(rest, id)->0;
            let i = choose|i: int|
                0 <= i < rest.len() && #[trigger] rest[i] == rest[at] && rest[at].id == id
                    && forall|j: int| 0 <= j < i ==> (#[trigger] rest[j]).id != id;
            assert(sections[at + 1] == rest[at]);
            assert(sections[i + 1] == sections[at + 1]);
            assert forall|j: int| 0 <= j < i + 1 implies (#[trigger] sections[j]).id != id by {
                if j > 0 {
                    assert(rest[j - 1] == sections[j]);
                }
            }
        } else {
            assert forall|i: int| 0 <= i < sections.len() implies (#[trigger] sections[i]).id
                != id by {
                if i > 0 {
                    assert(rest[i - 1] == sections[i]);
                }
            }
        }
    } else if sections.len() > 0 {
        assert(sections[0] == sections[section_index(sections, id)->0]);
    }
}

/// A checkpoint is restored from the first section of each identity, each into its own place and of
/// the version that is called for; where one is missing or of another version it is refused.
pub proof fn law_sections_restored<'a>(
    sections: &'a Vec<Section>,
    layout: &SectionLayout,
    r: Result<RestoreSet<'a>>,
)
    requires
        call_ensures(restore_sections, (sections, layout), r),
    ensures
        r is Ok ==> {
            let set = r->Ok_0;
            &&& first_with(sections@, layout.book.id, *set.book) && set.book.version
                == layout.book.version
            &&& first_with(sections@, layout.flow.id, *set.flow) && set.flow.version
                == layout.flow.version
            &&& first_with(sections@, layout.refresh.id, *set.refresh) && set.refresh.version
                == layout.refresh.version
            &&& first_with(sections@, layout.profile.id, *set.profile) && set.profile.version
                == layout.profile.version
            &&& first_with(sections@, layout.cvd.id, *set.cvd) && set.cvd.version
                == layout.cvd.version
        },
        r is Err ==> lacks(sections@, layout.book) || lacks(sections@, layout.flow) || lacks(
            sections@,
            layout.refresh,
        ) || lacks(sections@, layout.profile) || lacks(sections@, layout.cvd),
{
    lemma_first_with(sections@, layout.book.id);
    lemma_first_with(sections@, layout.flow.id);
    lemma_first_with(sections@, layout.refresh.id);
    lemma_first_with(sections@, layout.profile.id);
    lemma_first_with(sections@, layout.cvd.id);
}

/// Whether no section has the identity, or the first that has it is of another version.
pub open spec fn lacks(sections: Seq<Section>, tag: SectionTag) -> bool {
    (forall|i: int| 0 <= i < sections.len() ==> (#[trigger] sections[i]).id != tag.id) || exists|
        section: Section,
    | #[trigger]
        first_with(sections, tag.id, section) && section.version != tag.version
}

} // verus!
