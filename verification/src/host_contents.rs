//! The latest content of the injected regions of each open host document.
//!
//! A host document that is closed and opened again begins a new lifetime. What
//! belongs to an earlier lifetime can neither read nor write the later one.

use crate::document_tracker::{doc_views, DocumentTracker, OpenedVirtualDoc};
use crate::document_tracking::DocView;
use crate::outside::ulid_text;
use crate::text::{same_text, texts};
use crate::text_table::TextTable;
use vstd::prelude::*;

verus! {

/// The contents of regions by language and by region.
pub struct RegionContents {
    languages: TextTable<TextTable<String>>,
}

/// What the regions of one language hold.
pub open spec fn region_texts(regions: TextTable<String>) -> Map<Seq<char>, Seq<char>> {
    regions@.map_values(|content: String| content@)
}

impl View for RegionContents {
    type V = Map<Seq<char>, Map<Seq<char>, Seq<char>>>;

    closed spec fn view(&self) -> Map<Seq<char>, Map<Seq<char>, Seq<char>>> {
        self.languages@.map_values(|regions: TextTable<String>| region_texts(regions))
    }
}

/// The regions of one language, none where the language has none.
pub open spec fn regions_in(
    contents: Map<Seq<char>, Map<Seq<char>, Seq<char>>>,
    language: Seq<char>,
) -> Map<Seq<char>, Seq<char>> {
    if contents.contains_key(language) {
        contents[language]
    } else {
        Map::empty()
    }
}

/// The contents with the regions of one language replaced. A language without
/// regions goes.
pub open spec fn with_regions(
    contents: Map<Seq<char>, Map<Seq<char>, Seq<char>>>,
    language: Seq<char>,
    regions: Map<Seq<char>, Seq<char>>,
) -> Map<Seq<char>, Map<Seq<char>, Seq<char>>> {
    if regions =~= Map::empty() {
        contents.remove(language)
    } else {
        contents.insert(language, regions)
    }
}

/// The contents with that of one region set.
pub open spec fn with_content(
    contents: Map<Seq<char>, Map<Seq<char>, Seq<char>>>,
    language: Seq<char>,
    region: Seq<char>,
    content: Seq<char>,
) -> Map<Seq<char>, Map<Seq<char>, Seq<char>>> {
    contents.insert(language, regions_in(contents, language).insert(region, content))
}

/// The contents without some regions of one language.
pub open spec fn without_regions(
    contents: Map<Seq<char>, Map<Seq<char>, Seq<char>>>,
    language: Seq<char>,
    gone: Set<Seq<char>>,
) -> Map<Seq<char>, Map<Seq<char>, Seq<char>>> {
    with_regions(contents, language, regions_in(contents, language).remove_keys(gone))
}

/// The contents without the regions that have one of the identifiers, whatever
/// their language. A language without regions goes.
pub open spec fn without_regions_anywhere(
    contents: Map<Seq<char>, Map<Seq<char>, Seq<char>>>,
    gone: Set<Seq<char>>,
) -> Map<Seq<char>, Map<Seq<char>, Seq<char>>> {
    Map::new(
        |language: Seq<char>|
            contents.contains_key(language) && !(contents[language].remove_keys(gone)
                =~= Map::empty()),
        |language: Seq<char>| contents[language].remove_keys(gone),
    )
}

/// The contents without the regions of some documents, one after the other.
pub open spec fn without_docs(
    contents: Map<Seq<char>, Map<Seq<char>, Seq<char>>>,
    docs: Seq<DocView>,
) -> Map<Seq<char>, Map<Seq<char>, Seq<char>>>
    decreases docs.len(),
{
    if docs.len() == 0 {
        contents
    } else {
        without_regions(
            without_docs(contents, docs.drop_last()),
            docs.last().uri.language,
            set![docs.last().uri.region_id],
        )
    }
}

/// No language is kept without a region.
pub open spec fn languages_have_regions(contents: Map<Seq<char>, Map<Seq<char>, Seq<char>>>) -> bool {
    forall|language: Seq<char>| #[trigger]
        contents.contains_key(language) ==> !(contents[language] =~= Map::empty())
}

spec fn partly_without(
    contents: Map<Seq<char>, Map<Seq<char>, Seq<char>>>,
    done: Seq<Seq<char>>,
    gone: Set<Seq<char>>,
) -> Map<Seq<char>, Map<Seq<char>, Seq<char>>> {
    Map::new(
        |language: Seq<char>|
            contents.contains_key(language) && (done.contains(language) ==> !(
            contents[language].remove_keys(gone) =~= Map::empty())),
        |language: Seq<char>|
            if done.contains(language) {
                contents[language].remove_keys(gone)
            } else {
                contents[language]
            },
    )
}

impl RegionContents {
    /// The tables are in order, and no language is kept without a region.
    pub closed spec fn wf(self) -> bool {
        &&& self.languages.wf()
        &&& forall|language: Seq<char>| #[trigger]
            self.languages@.contains_key(language) ==> self.languages@[language].wf()
        &&& languages_have_regions(self@)
    }

    /// No language is kept without a region.
    pub proof fn lemma_languages(self)
        requires
            self.wf(),
        ensures
            languages_have_regions(self@),
    {
    }

    /// No contents.
    pub fn new() -> (contents: Self)
        ensures
            contents.wf(),
            (contents@ == Map::<Seq<char>, Map<Seq<char>, Seq<char>>>::empty()),
    {
        let contents = RegionContents { languages: TextTable::new() };
        assert(contents@ =~= Map::<Seq<char>, Map<Seq<char>, Seq<char>>>::empty());
        contents
    }

    /// The content of a region.
    pub fn get(&self, language: &str, region: &str) -> (content: Option<&String>)
        requires
            self.wf(),
        ensures
            match content {
                Some(content) => self@.contains_key(language@) && self@[language@].contains_key(
                    region@,
                ) && self@[language@][region@] == content@,
                None => !regions_in(self@, language@).contains_key(region@),
            },
    {
        match self.languages.get(language) {
            Some(regions) => regions.get(region),
            None => None,
        }
    }

    proof fn lemma_set(before: Self, after: Self, language: Seq<char>, regions: TextTable<String>)
        requires
            before.wf(),
            after.languages.wf(),
            regions.wf(),
            if region_texts(regions) =~= Map::<Seq<char>, Seq<char>>::empty() {
                after.languages@ == before.languages@.remove(language)
            } else {
                after.languages@ == before.languages@.insert(language, regions)
            },
        ensures
            after.wf(),
            after@ == with_regions(before@, language, region_texts(regions)),
    {
        assert(after@ =~= with_regions(before@, language, region_texts(regions)));
        assert forall|other: Seq<char>| #[trigger]
            after.languages@.contains_key(other) implies after.languages@[other].wf() by {
            if other != language {
                assert(before.languages@.contains_key(other));
            }
        }
        assert forall|other: Seq<char>| #[trigger] after@.contains_key(other) implies !(
        after@[other] =~= Map::empty()) by {
            if other != language {
                assert(before@.contains_key(other));
            }
        }
    }

    /// Sets the content of a region.
    pub fn set(&mut self, language: &str, region: &str, content: &str)
        requires
            old(self).wf(),
        ensures
            final(self).wf(),
            final(self)@ == with_content(old(self)@, language@, region@, content@),
    {
        let mut regions: TextTable<String> = match self.languages.remove(language) {
            Some(regions) => regions,
            None => TextTable::new(),
        };
        let ghost before = region_texts(regions);
        regions.insert(region.to_owned(), content.to_owned());
        let ghost inner = regions;
        self.languages.insert(language.to_owned(), regions);
        proof {
            assert(before =~= regions_in(old(self)@, language@));
            assert(region_texts(inner) =~= before.insert(region@, content@));
            assert(region_texts(inner).contains_key(region@));
            assert(self.languages@ =~= old(self).languages@.insert(language@, inner));
            Self::lemma_set(*old(self), *self, language@, inner);
        }
    }

    /// Takes some regions of one language out.
    pub fn remove_regions_of(&mut self, language: &str, gone: &Vec<String>)
        requires
            old(self).wf(),
        ensures
            final(self).wf(),
            final(self)@ == without_regions(old(self)@, language@, texts(gone@).to_set()),
    {
        let mut regions: TextTable<String> = match self.languages.remove(language) {
            Some(regions) => regions,
            None => TextTable::new(),
        };
        let ghost before = region_texts(regions);
        let ghost ids = texts(gone@);
        assert(before =~= regions_in(old(self)@, language@));
        assert(before.remove_keys(ids.take(0).to_set()) =~= before);
        let mut i: usize = 0;
        while i < gone.len()
            invariant
                i <= gone@.len(),
                ids == texts(gone@),
                regions.wf(),
                region_texts(regions) == before.remove_keys(ids.take(i as int).to_set()),
            decreases gone@.len() - i,
        {
            let ghost held = region_texts(regions);
            regions.remove(gone[i].as_str());
            proof {
                let taken = ids.take(i as int);
                assert(ids.take(i + 1) =~= taken.push(ids[i as int]));
                assert(ids.take(i + 1).to_set() =~= taken.to_set().insert(ids[i as int])) by {
                    assert forall|id: Seq<char>| ids.take(i + 1).to_set().contains(id)
                        == taken.to_set().insert(ids[i as int]).contains(id) by {
                        crate::seqs::lemma_push_contains(taken, ids[i as int], id);
                    }
                }
                assert(region_texts(regions) =~= held.remove(ids[i as int]));
                assert(region_texts(regions) =~= before.remove_keys(ids.take(i + 1).to_set()));
            }
            i += 1;
        }
        assert(ids.take(gone@.len() as int) =~= ids);
        let ghost inner = regions;
        proof {
            regions.lemma_keys();
            if regions.keys().len() == 0 {
                assert forall|region: Seq<char>| !regions@.contains_key(region) by {
                    assert(!regions.keys().contains(region));
                }
                assert(region_texts(regions) =~= Map::<Seq<char>, Seq<char>>::empty());
            } else {
                assert(regions.keys().contains(regions.keys()[0]));
                assert(region_texts(regions).contains_key(regions.keys()[0]));
            }
        }
        if regions.len() > 0 {
            self.languages.insert(language.to_owned(), regions);
        }
        proof {
            if region_texts(inner) =~= Map::<Seq<char>, Seq<char>>::empty() {
                assert(self.languages@ =~= old(self).languages@.remove(language@));
            } else {
                assert(self.languages@ =~= old(self).languages@.insert(language@, inner));
            }
            Self::lemma_set(*old(self), *self, language@, inner);
        }
    }

    /// Takes some regions out, whatever their language.
    pub fn remove_regions(&mut self, gone: &Vec<String>)
        requires
            old(self).wf(),
        ensures
            final(self).wf(),
            final(self)@ == without_regions_anywhere(old(self)@, texts(gone@).to_set()),
    {
        let ghost start = self@;
        let ghost ids = texts(gone@).to_set();
        let ghost order = self.languages.keys();
        let mut names: Vec<String> = Vec::new();
        let mut i: usize = 0;
        while i < self.languages.len()
            invariant
                i <= order.len(),
                order == self.languages.keys(),
                names@.len() == i,
                forall|j: int| 0 <= j < i ==> (#[trigger] names@[j])@ == order[j],
                *self == *old(self),
            decreases order.len() - i,
        {
            names.push(self.languages.key_at(i).clone());
            i += 1;
        }
        proof {
            self.languages.lemma_keys();
            assert forall|language: Seq<char>| start.contains_key(language) == order.contains(
                language,
            ) by {
                assert(self.languages@.contains_key(language) == order.contains(language));
            }
            assert(self@ =~= partly_without(start, order.take(0), ids));
        }
        let mut k: usize = 0;
        while k < names.len()
            invariant
                k <= names@.len(),
                names@.len() == order.len(),
                forall|j: int| 0 <= j < order.len() ==> (#[trigger] names@[j])@ == order[j],
                order.no_duplicates(),
                forall|language: Seq<char>|
                    start.contains_key(language) == #[trigger] order.contains(language),
                ids == texts(gone@).to_set(),
                self.wf(),
                self@ == partly_without(start, order.take(k as int), ids),
            decreases names@.len() - k,
        {
            let ghost before = self@;
            let ghost name = order[k as int];
            let ghost done = order.take(k as int);
            self.remove_regions_of(names[k].as_str(), gone);
            proof {
                assert(order.take(k + 1) =~= done.push(name));
                assert(!done.contains(name)) by {
                    if done.contains(name) {
                        let j = choose|j: int| 0 <= j < done.len() && done[j] == name;
                        assert(order[j] == order[k as int]);
                    }
                }
                assert(order.contains(name));
                assert(before[name] == start[name]);
                assert forall|language: Seq<char>| #[trigger]
                    order.take(k + 1).contains(language) == (done.contains(language) || language
                        == name) by {
                    crate::seqs::lemma_push_contains(done, name, language);
                }
                assert(self@ =~= partly_without(start, order.take(k + 1), ids));
            }
            k += 1;
        }
        proof {
            assert(order.take(order.len() as int) =~= order);
            assert(self@ =~= without_regions_anywhere(start, ids));
        }
    }
}

/// One lifetime of a host document.
pub struct HostVirtualContents {
    incarnation: u64,
    contents: RegionContents,
}

/// The mathematical content of [`HostVirtualContents`].
#[verifier::ext_equal]
pub struct HostView {
    pub incarnation: u64,
    pub contents: Map<Seq<char>, Map<Seq<char>, Seq<char>>>,
}

impl View for HostVirtualContents {
    type V = HostView;

    closed spec fn view(&self) -> HostView {
        HostView { incarnation: self.incarnation, contents: self.contents@ }
    }
}

/// Whether a host document is in the lifetime with the number.
pub open spec fn in_lifetime(
    hosts: Map<Seq<char>, HostView>,
    host: Seq<char>,
    incarnation: u64,
) -> bool {
    hosts.contains_key(host) && hosts[host].incarnation == incarnation
}

/// A host document begins a lifetime, with nothing in it.
pub open spec fn host_opened(
    hosts: Map<Seq<char>, HostView>,
    host: Seq<char>,
    incarnation: u64,
) -> Map<Seq<char>, HostView> {
    hosts.insert(host, HostView { incarnation, contents: Map::empty() })
}

/// A lifetime of a host document ends. A later one is left alone.
pub open spec fn host_closed(
    hosts: Map<Seq<char>, HostView>,
    host: Seq<char>,
    incarnation: u64,
) -> Map<Seq<char>, HostView> {
    if in_lifetime(hosts, host, incarnation) {
        hosts.remove(host)
    } else {
        hosts
    }
}

/// A region gets a content, if the lifetime that it belongs to is the current
/// one.
pub open spec fn content_recorded(
    hosts: Map<Seq<char>, HostView>,
    host: Seq<char>,
    incarnation: u64,
    language: Seq<char>,
    region: Seq<char>,
    content: Seq<char>,
) -> Map<Seq<char>, HostView> {
    if in_lifetime(hosts, host, incarnation) {
        hosts.insert(
            host,
            HostView {
                incarnation,
                contents: with_content(hosts[host].contents, language, region, content),
            },
        )
    } else {
        hosts
    }
}

/// The contents of a host document changed, if it is open.
pub open spec fn contents_changed(
    hosts: Map<Seq<char>, HostView>,
    host: Seq<char>,
    contents: Map<Seq<char>, Map<Seq<char>, Seq<char>>>,
) -> Map<Seq<char>, HostView> {
    if hosts.contains_key(host) {
        hosts.insert(host, HostView { contents, ..hosts[host] })
    } else {
        hosts
    }
}

/// The latest content of a region.
pub open spec fn latest_content(
    hosts: Map<Seq<char>, HostView>,
    host: Seq<char>,
    language: Seq<char>,
    region: Seq<char>,
) -> Option<Seq<char>> {
    if hosts.contains_key(host) && regions_in(hosts[host].contents, language).contains_key(region) {
        Some(regions_in(hosts[host].contents, language)[region])
    } else {
        None
    }
}

/// The latest contents of all open host documents.
pub struct LatestVirtualContents {
    hosts: TextTable<HostVirtualContents>,
}

impl View for LatestVirtualContents {
    type V = Map<Seq<char>, HostView>;

    closed spec fn view(&self) -> Map<Seq<char>, HostView> {
        self.hosts@.map_values(|host: HostVirtualContents| host@)
    }
}

impl LatestVirtualContents {
    /// The tables are in order.
    pub closed spec fn wf(self) -> bool {
        &&& self.hosts.wf()
        &&& forall|host: Seq<char>| #[trigger]
            self.hosts@.contains_key(host) ==> self.hosts@[host].contents.wf()
    }

    /// No host document is open.
    pub fn new() -> (contents: Self)
        ensures
            contents.wf(),
            (contents@ == Map::<Seq<char>, HostView>::empty()),
    {
        let contents = LatestVirtualContents { hosts: TextTable::new() };
        assert(contents@ =~= Map::<Seq<char>, HostView>::empty());
        contents
    }

    /// The lifetime that a host document is in.
    pub fn current_host_incarnation(&self, host_uri: &str) -> (incarnation: Option<u64>)
        requires
            self.wf(),
        ensures
            incarnation == (if self@.contains_key(host_uri@) {
                Some(self@[host_uri@].incarnation)
            } else {
                None
            }),
    {
        match self.hosts.get(host_uri) {
            Some(host) => Some(host.incarnation),
            None => None,
        }
    }

    /// Begins a lifetime of a host document.
    pub fn open_host_incarnation(&mut self, host_uri: &str, incarnation: u64)
        requires
            old(self).wf(),
        ensures
            final(self).wf(),
            final(self)@ == host_opened(old(self)@, host_uri@, incarnation),
    {
        self.hosts.insert(
            host_uri.to_owned(),
            HostVirtualContents { incarnation, contents: RegionContents::new() },
        );
        assert(self@ =~= host_opened(old(self)@, host_uri@, incarnation));
    }

    /// Ends a lifetime of a host document. A late end of an earlier lifetime does
    /// nothing.
    pub fn close_host_incarnation(&mut self, host_uri: &str, incarnation: u64)
        requires
            old(self).wf(),
        ensures
            final(self).wf(),
            final(self)@ == host_closed(old(self)@, host_uri@, incarnation),
    {
        let current = match self.current_host_incarnation(host_uri) {
            Some(current) => current == incarnation,
            None => false,
        };
        if current {
            self.hosts.remove(host_uri);
            assert(self@ =~= old(self)@.remove(host_uri@));
        }
    }

    /// Notes the content of a region, for those who open the region later. What
    /// comes from an earlier lifetime is ignored.
    pub fn record_latest_virtual_content(
        &mut self,
        host_uri: &str,
        incarnation: u64,
        language: &str,
        region_id: &str,
        content: &str,
    )
        requires
            old(self).wf(),
        ensures
            final(self).wf(),
            final(self)@ == content_recorded(
                old(self)@,
                host_uri@,
                incarnation,
                language@,
                region_id@,
                content@,
            ),
    {
        let ghost known = self.hosts@;
        let current = match self.current_host_incarnation(host_uri) {
            Some(current) => current == incarnation,
            None => false,
        };
        if !current {
            return ;
        }
        if let Some(host) = self.hosts.get_mut(host_uri) {
            let same = match host.contents.get(language, region_id) {
                Some(known) => same_text(known.as_str(), content),
                None => false,
            };
            let ghost held = host.contents@;
            if !same {
                host.contents.set(language, region_id, content);
            } else {
                assert(held.insert(language@, held[language@]) =~= held);
                assert(held[language@].insert(region_id@, content@) =~= held[language@]);
            }
            assert(host.contents@ == with_content(held, language@, region_id@, content@));
        }
        assert(self@ =~= content_recorded(
            old(self)@,
            host_uri@,
            incarnation,
            language@,
            region_id@,
            content@,
        ));
    }

    /// The latest content of a region.
    pub fn latest(&self, host_uri: &str, language: &str, region_id: &str) -> (content: Option<
        &String,
    >)
        requires
            self.wf(),
        ensures
            match content {
                Some(content) => latest_content(self@, host_uri@, language@, region_id@) == Some(
                    content@,
                ),
                None => latest_content(self@, host_uri@, language@, region_id@) is None,
            },
    {
        match self.hosts.get(host_uri) {
            Some(host) => {
                assert(self@[host_uri@].contents == host.contents@);
                host.contents.get(language, region_id)
            },
            None => None,
        }
    }

    /// Drops the contents of the regions that one of the ULIDs names.
    pub fn clear_invalidated_virtual_contents(&mut self, host_uri: &str, invalidated_ulids: &[u128])
        requires
            old(self).wf(),
        ensures
            final(self).wf(),
            old(self)@.contains_key(host_uri@) ==> final(self)@ == contents_changed(
                old(self)@,
                host_uri@,
                without_regions_anywhere(
                    old(self)@[host_uri@].contents,
                    invalidated_ulids@.map_values(|ulid: u128| ulid_text(ulid)).to_set(),
                ),
            ),
            !old(self)@.contains_key(host_uri@) ==> final(self)@ == old(self)@,
    {
        let regions = DocumentTracker::regions_of(invalidated_ulids);
        if let Some(host) = self.hosts.get_mut(host_uri) {
            host.contents.remove_regions(&regions);
        }
        proof {
            if old(self)@.contains_key(host_uri@) {
                assert(self@ =~= contents_changed(
                    old(self)@,
                    host_uri@,
                    without_regions_anywhere(
                        old(self)@[host_uri@].contents,
                        invalidated_ulids@.map_values(|ulid: u128| ulid_text(ulid)).to_set(),
                    ),
                ));
            }
        }
    }

    /// Drops the contents of the regions of some documents, each in the language
    /// of its document.
    pub fn clear_replaced_virtual_contents(
        &mut self,
        host_uri: &str,
        replaced: &Vec<OpenedVirtualDoc>,
    )
        requires
            old(self).wf(),
        ensures
            final(self).wf(),
            old(self)@.contains_key(host_uri@) ==> final(self)@ == contents_changed(
                old(self)@,
                host_uri@,
                without_docs(old(self)@[host_uri@].contents, doc_views(replaced@)),
            ),
            !old(self)@.contains_key(host_uri@) ==> final(self)@ == old(self)@,
    {
        let ghost docs = doc_views(replaced@);
        if let Some(host) = self.hosts.get_mut(host_uri) {
            let ghost start = host.contents@;
            let ghost incarnation = host.incarnation;
            let mut i: usize = 0;
            assert(without_docs(start, docs.take(0)) == start);
            while i < replaced.len()
                invariant
                    i <= replaced@.len(),
                    docs == doc_views(replaced@),
                    host.contents.wf(),
                    host.incarnation == incarnation,
                    host.contents@ == without_docs(start, docs.take(i as int)),
                decreases replaced@.len() - i,
            {
                let mut gone: Vec<String> = Vec::new();
                gone.push(replaced[i].virtual_uri.region_id().to_owned());
                let ghost ids = texts(gone@);
                host.contents.remove_regions_of(replaced[i].virtual_uri.language(), &gone);
                proof {
                    let doc = docs[i as int];
                    assert(docs.take(i + 1).drop_last() =~= docs.take(i as int));
                    assert(docs.take(i + 1).last() == doc);
                    assert(ids.len() == 1 && ids[0] == doc.uri.region_id);
                    assert(ids.to_set() =~= set![doc.uri.region_id]) by {
                        assert forall|id: Seq<char>| ids.to_set().contains(id) == set![
                            doc.uri.region_id,
                        ].contains(id) by {
                            if id == doc.uri.region_id {
                                assert(ids[0] == id);
                            }
                        }
                    }
                }
                i += 1;
            }
            assert(docs.take(replaced@.len() as int) =~= docs);
        }
        proof {
            if old(self)@.contains_key(host_uri@) {
                assert(self@ =~= contents_changed(
                    old(self)@,
                    host_uri@,
                    without_docs(old(self)@[host_uri@].contents, docs),
                ));
            }
        }
    }
}

/// What is recorded is what is read: for the region that it was recorded for, as
/// long as the lifetime lasts.
pub proof fn recorded_content_is_read(
    hosts: Map<Seq<char>, HostView>,
    host: Seq<char>,
    incarnation: u64,
    language: Seq<char>,
    region: Seq<char>,
    content: Seq<char>,
)
    requires
        in_lifetime(hosts, host, incarnation),
    ensures
        latest_content(
            content_recorded(hosts, host, incarnation, language, region, content),
            host,
            language,
            region,
        ) == Some(content),
{
}

/// A publisher of an earlier lifetime changes nothing after the host document was
/// opened again, and its late close does not close the later lifetime.
pub proof fn earlier_lifetimes_are_shut_out(
    hosts: Map<Seq<char>, HostView>,
    host: Seq<char>,
    earlier: u64,
    later: u64,
    language: Seq<char>,
    region: Seq<char>,
    content: Seq<char>,
)
    requires
        earlier != later,
    ensures
        content_recorded(host_opened(hosts, host, later), host, earlier, language, region, content)
            == host_opened(hosts, host, later),
        host_closed(host_opened(hosts, host, later), host, earlier) == host_opened(
            hosts,
            host,
            later,
        ),
{
}

/// A host document that is opened again holds nothing of before, and one that is
/// closed holds nothing at all.
pub proof fn lifetimes_start_empty(
    hosts: Map<Seq<char>, HostView>,
    host: Seq<char>,
    incarnation: u64,
    language: Seq<char>,
    region: Seq<char>,
)
    ensures
        latest_content(host_opened(hosts, host, incarnation), host, language, region) is None,
        in_lifetime(hosts, host, incarnation) ==> latest_content(
            host_closed(hosts, host, incarnation),
            host,
            language,
            region,
        ) is None,
{
}

/// Invalidating regions drops exactly their contents, in every language.
pub proof fn invalidation_drops_only_its_regions(
    contents: Map<Seq<char>, Map<Seq<char>, Seq<char>>>,
    gone: Set<Seq<char>>,
    language: Seq<char>,
    region: Seq<char>,
)
    ensures
        regions_in(without_regions_anywhere(contents, gone), language).contains_key(region) <==> (
        regions_in(contents, language).contains_key(region) && !gone.contains(region)),
        !gone.contains(region) && regions_in(contents, language).contains_key(region)
            ==> regions_in(without_regions_anywhere(contents, gone), language)[region]
            == regions_in(contents, language)[region],
        languages_have_regions(without_regions_anywhere(contents, gone)),
{
    if contents.contains_key(language) {
        let left = contents[language].remove_keys(gone);
        if left =~= Map::empty() {
            assert(!left.contains_key(region));
        }
    }
}

/// Replacing a document drops its region in its own language only.
pub proof fn replacement_spares_other_languages(
    contents: Map<Seq<char>, Map<Seq<char>, Seq<char>>>,
    language: Seq<char>,
    gone: Set<Seq<char>>,
    other: Seq<char>,
)
    requires
        other != language,
    ensures
        regions_in(without_regions(contents, language, gone), other) == regions_in(contents, other),
{
}

/// Recording a content changes what is read for its own region and for no other
/// one, and keeps the lifetime. Outside its lifetime it changes nothing.
pub proof fn recording_concerns_one_region(
    hosts: Map<Seq<char>, HostView>,
    host: Seq<char>,
    incarnation: u64,
    language: Seq<char>,
    region: Seq<char>,
    content: Seq<char>,
    other_host: Seq<char>,
    other_language: Seq<char>,
    other_region: Seq<char>,
)
    ensures
        ({
            let after = content_recorded(hosts, host, incarnation, language, region, content);
            &&& other_host != host || other_language != language || other_region != region
                ==> latest_content(after, other_host, other_language, other_region)
                == latest_content(hosts, other_host, other_language, other_region)
            &&& after.contains_key(other_host) == hosts.contains_key(other_host)
            &&& hosts.contains_key(other_host) ==> after[other_host].incarnation
                == hosts[other_host].incarnation
            &&& !(hosts.contains_key(host) && hosts[host].incarnation == incarnation) ==> after
                == hosts
        }),
{
}

/// Opening and closing a host document concern that document only. A close ends the
/// lifetime that it names and no other.
pub proof fn lifetimes_concern_one_host(
    hosts: Map<Seq<char>, HostView>,
    host: Seq<char>,
    incarnation: u64,
    other: Seq<char>,
)
    ensures
        host_opened(hosts, host, incarnation).contains_key(host),
        host_opened(hosts, host, incarnation)[host].incarnation == incarnation,
        host_closed(hosts, host, incarnation).contains_key(host) <==> hosts.contains_key(host)
            && hosts[host].incarnation != incarnation,
        hosts.contains_key(host) && hosts[host].incarnation != incarnation ==> host_closed(
            hosts,
            host,
            incarnation,
        ) == hosts,
        other != host ==> {
            &&& host_opened(hosts, host, incarnation).contains_key(other) == hosts.contains_key(
                other,
            )
            &&& host_closed(hosts, host, incarnation).contains_key(other) == hosts.contains_key(
                other,
            )
            &&& host_opened(hosts, host, incarnation)[other] == hosts[other]
            &&& host_closed(hosts, host, incarnation)[other] == hosts[other]
        },
        in_lifetime(hosts, host, incarnation) <==> hosts.contains_key(host)
            && hosts[host].incarnation == incarnation,
{
}

/// Changing what a host document holds keeps its lifetime and concerns that document
/// only. One that is closed stays closed.
pub proof fn changes_keep_the_lifetime(
    hosts: Map<Seq<char>, HostView>,
    host: Seq<char>,
    contents: Map<Seq<char>, Map<Seq<char>, Seq<char>>>,
    other: Seq<char>,
)
    ensures
        ({
            let after = contents_changed(hosts, host, contents);
            &&& after.contains_key(other) == hosts.contains_key(other)
            &&& hosts.contains_key(host) ==> after[host].incarnation == hosts[host].incarnation
                && after[host].contents == contents
            &&& other != host ==> after[other] == hosts[other]
        }),
{
}

/// Dropping the contents of replaced documents drops exactly the regions of these
/// documents, each in its own language, and leaves every other content as it is.
pub proof fn replaced_documents_lose_their_content(
    contents: Map<Seq<char>, Map<Seq<char>, Seq<char>>>,
    docs: Seq<DocView>,
    language: Seq<char>,
    region: Seq<char>,
)
    ensures
        regions_in(without_docs(contents, docs), language).contains_key(region) <==> regions_in(
            contents,
            language,
        ).contains_key(region) && !(exists|i: int|
            0 <= i < docs.len() && (#[trigger] docs[i]).uri.language == language
                && docs[i].uri.region_id == region),
        regions_in(without_docs(contents, docs), language).contains_key(region) ==> regions_in(
            without_docs(contents, docs),
            language,
        )[region] == regions_in(contents, language)[region],
    decreases docs.len(),
{
    if docs.len() > 0 {
        let shorter = docs.drop_last();
        let last = docs.last();
        replaced_documents_lose_their_content(contents, shorter, language, region);
        let before = without_docs(contents, shorter);
        let left = regions_in(before, last.uri.language).remove_keys(set![last.uri.region_id]);
        if left =~= Map::empty() {
            assert(!left.contains_key(region));
        }
        if exists|i: int|
            0 <= i < shorter.len() && (#[trigger] shorter[i]).uri.language == language
                && shorter[i].uri.region_id == region {
            let i = choose|i: int|
                0 <= i < shorter.len() && (#[trigger] shorter[i]).uri.language == language
                    && shorter[i].uri.region_id == region;
            assert(docs[i] == shorter[i]);
        }
        if exists|i: int|
            0 <= i < docs.len() && (#[trigger] docs[i]).uri.language == language
                && docs[i].uri.region_id == region {
            let i = choose|i: int|
                0 <= i < docs.len() && (#[trigger] docs[i]).uri.language == language
                    && docs[i].uri.region_id == region;
            if i < shorter.len() {
                assert(shorter[i] == docs[i]);
            }
        }
        assert(docs[docs.len() - 1] == last);
    }
}

} // verus!
