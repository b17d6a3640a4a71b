//! The workspace folders that the editor has open, or that one connection was
//! told of.

use crate::text::same_text;
use vstd::prelude::*;

verus! {

/// One workspace folder. Folders are told apart by their address.
#[derive(Debug, PartialEq, Eq)]
pub struct WorkspaceFolder {
    pub uri: String,
    pub name: String,
}

/// The mathematical content of a [`WorkspaceFolder`].
pub struct FolderView {
    pub uri: Seq<char>,
    pub name: Seq<char>,
}

impl View for WorkspaceFolder {
    type V = FolderView;

    open spec fn view(&self) -> FolderView {
        FolderView { uri: self.uri@, name: self.name@ }
    }
}

impl Clone for WorkspaceFolder {
    fn clone(&self) -> (copy: Self)
        ensures
            copy@ == self@,
    {
        WorkspaceFolder { uri: self.uri.clone(), name: self.name.clone() }
    }
}

/// The contents of a list of folders.
pub open spec fn folder_views(list: Seq<WorkspaceFolder>) -> Seq<FolderView> {
    Seq::new(list.len(), |i: int| list[i]@)
}

/// The contents of an optional list of folders.
pub open spec fn optional_folder_views(list: Option<Vec<WorkspaceFolder>>) -> Option<
    Seq<FolderView>,
> {
    match list {
        Some(list) => Some(folder_views(list@)),
        None => None,
    }
}

/// Whether a folder with the address is listed.
pub open spec fn lists_folder(folders: Seq<FolderView>, uri: Seq<char>) -> bool {
    exists|i: int| 0 <= i < folders.len() && (#[trigger] folders[i]).uri == uri
}

/// Whether the folders, where there are any, list one with the address.
pub open spec fn serves(folders: Option<Seq<FolderView>>, uri: Seq<char>) -> bool {
    folders matches Some(list) && lists_folder(list, uri)
}

/// The folders that stay when some are removed.
pub open spec fn staying(removed: Seq<FolderView>) -> spec_fn(FolderView) -> bool {
    |folder: FolderView| !lists_folder(removed, folder.uri)
}

/// The folders with one more, unless its address is listed already.
pub open spec fn with_folder(folders: Seq<FolderView>, folder: FolderView) -> Seq<FolderView> {
    if lists_folder(folders, folder.uri) {
        folders
    } else {
        folders.push(folder)
    }
}

/// The folders with some more, one after the other.
pub open spec fn with_folders(folders: Seq<FolderView>, added: Seq<FolderView>) -> Seq<FolderView>
    decreases added.len(),
{
    if added.len() == 0 {
        folders
    } else {
        with_folder(with_folders(folders, added.drop_last()), added.last())
    }
}

/// The listed folders, none where there is no list.
pub open spec fn listed(folders: Option<Seq<FolderView>>) -> Seq<FolderView> {
    match folders {
        Some(list) => list,
        None => Seq::empty(),
    }
}

/// The folders after a change: what is removed goes first, what is added comes
/// last.
pub open spec fn after_change(
    folders: Option<Seq<FolderView>>,
    added: Seq<FolderView>,
    removed: Seq<FolderView>,
) -> Option<Seq<FolderView>> {
    Some(with_folders(listed(folders).filter(staying(removed)), added))
}

proof fn lemma_folder_views_push(list: Seq<WorkspaceFolder>, folder: WorkspaceFolder)
    ensures
        folder_views(list.push(folder)) == folder_views(list).push(folder@),
{
    assert(folder_views(list.push(folder)) =~= folder_views(list).push(folder@));
}

fn list_holds(list: &Vec<WorkspaceFolder>, uri: &str) -> (held: bool)
    ensures
        held == lists_folder(folder_views(list@), uri@),
{
    let mut i: usize = 0;
    while i < list.len()
        invariant
            i <= list.len(),
            forall|j: int| 0 <= j < i ==> (#[trigger] folder_views(list@)[j]).uri != uri@,
        decreases list.len() - i,
    {
        if same_text(list[i].uri.as_str(), uri) {
            assert(folder_views(list@)[i as int].uri == uri@);
            return true;
        }
        i += 1;
    }
    false
}

/// A second list of the same folders.
pub fn copy_folders(list: &Vec<WorkspaceFolder>) -> (copy: Vec<WorkspaceFolder>)
    ensures
        folder_views(copy@) == folder_views(list@),
{
    let mut copy: Vec<WorkspaceFolder> = Vec::new();
    let mut i: usize = 0;
    while i < list.len()
        invariant
            i <= list.len(),
            copy.len() == i,
            forall|j: int| 0 <= j < i ==> (#[trigger] copy@[j])@ == list@[j]@,
        decreases list.len() - i,
    {
        copy.push(list[i].clone());
        i += 1;
    }
    assert(folder_views(copy@) =~= folder_views(list@));
    copy
}

/// A set of workspace folders that may not be known at all.
#[derive(Debug)]
pub struct WorkspaceFolderSet {
    folders: Option<Vec<WorkspaceFolder>>,
}

impl View for WorkspaceFolderSet {
    type V = Option<Seq<FolderView>>;

    closed spec fn view(&self) -> Option<Seq<FolderView>> {
        optional_folder_views(self.folders)
    }
}

impl WorkspaceFolderSet {
    /// A set with the given folders.
    pub fn new(folders: Option<Vec<WorkspaceFolder>>) -> (set: Self)
        ensures
            set@ == optional_folder_views(folders),
    {
        WorkspaceFolderSet { folders }
    }

    /// Puts other folders in the place of all.
    pub fn replace(&mut self, folders: Option<Vec<WorkspaceFolder>>)
        ensures
            final(self)@ == optional_folder_views(folders),
    {
        self.folders = folders;
    }

    /// The folders as they are now.
    pub fn snapshot(&self) -> (folders: Option<Vec<WorkspaceFolder>>)
        ensures
            optional_folder_views(folders) == self@,
    {
        match &self.folders {
            Some(list) => Some(copy_folders(list)),
            None => None,
        }
    }

    /// The address of the first folder.
    pub fn first_uri(&self) -> (uri: Option<String>)
        ensures
            match uri {
                Some(uri) => listed(self@).len() > 0 && uri@ == listed(self@)[0].uri,
                None => listed(self@).len() == 0,
            },
    {
        match &self.folders {
            Some(list) => if list.len() > 0 {
                Some(list[0].uri.clone())
            } else {
                None
            },
            None => None,
        }
    }

    /// Whether the folder is in the set.
    pub fn contains(&self, folder: &WorkspaceFolder) -> (held: bool)
        ensures
            held == serves(self@, folder@.uri),
    {
        match &self.folders {
            Some(list) => list_holds(list, folder.uri.as_str()),
            None => false,
        }
    }

    fn take_list(&mut self) -> (list: Vec<WorkspaceFolder>)
        ensures
            folder_views(list@) == listed(old(self)@),
    {
        let mut folders: Option<Vec<WorkspaceFolder>> = None;
        std::mem::swap(&mut folders, &mut self.folders);
        match folders {
            Some(list) => list,
            None => {
                let list: Vec<WorkspaceFolder> = Vec::new();
                assert(folder_views(list@) =~= Seq::<FolderView>::empty());
                list
            },
        }
    }

    /// Removes some folders and adds others.
    pub fn apply_change(&mut self, added: &Vec<WorkspaceFolder>, removed: &Vec<WorkspaceFolder>)
        ensures
            final(self)@ == after_change(
                old(self)@,
                folder_views(added@),
                folder_views(removed@),
            ),
    {
        let before = self.take_list();
        let ghost start = folder_views(before@);
        let ghost keep = staying(folder_views(removed@));
        let mut list: Vec<WorkspaceFolder> = Vec::new();
        let mut i: usize = 0;
        proof {
            reveal(Seq::filter);
            assert(folder_views(list@) =~= start.take(0).filter(keep));
        }
        while i < before.len()
            invariant
                i <= before.len(),
                start == folder_views(before@),
                keep == staying(folder_views(removed@)),
                folder_views(list@) == start.take(i as int).filter(keep),
            decreases before.len() - i,
        {
            proof {
                assert(start.take(i + 1) =~= start.take(i as int).push(start[i as int]));
                start.take(i as int).lemma_filter_push(start[i as int], keep);
            }
            if !list_holds(removed, before[i].uri.as_str()) {
                let folder = before[i].clone();
                proof {
                    lemma_folder_views_push(list@, folder);
                }
                list.push(folder);
            }
            i += 1;
        }
        assert(start.take(before.len() as int) =~= start);
        let ghost kept = folder_views(list@);
        let ghost more = folder_views(added@);
        let mut k: usize = 0;
        assert(with_folders(kept, more.take(0)) == kept);
        while k < added.len()
            invariant
                k <= added.len(),
                more == folder_views(added@),
                folder_views(list@) == with_folders(kept, more.take(k as int)),
            decreases added.len() - k,
        {
            assert(more.take(k + 1).drop_last() =~= more.take(k as int));
            assert(more.take(k + 1).last() == more[k as int]);
            if !list_holds(&list, added[k].uri.as_str()) {
                let folder = added[k].clone();
                proof {
                    lemma_folder_views_push(list@, folder);
                }
                list.push(folder);
            }
            k += 1;
        }
        assert(more.take(added.len() as int) =~= more);
        self.folders = Some(list);
    }

    /// Adds a folder that the server was told of. Nothing changes where the
    /// folder is in the set already.
    pub fn add(&mut self, folder: &WorkspaceFolder)
        ensures
            final(self)@ == Some(with_folder(listed(old(self)@), folder@)),
    {
        let mut list = self.take_list();
        if !list_holds(&list, folder.uri.as_str()) {
            let folder = folder.clone();
            proof {
                lemma_folder_views_push(list@, folder);
            }
            list.push(folder);
        }
        self.folders = Some(list);
    }
}

/// No address is listed twice.
pub open spec fn addresses_are_unique(folders: Seq<FolderView>) -> bool {
    forall|i: int, j: int|
        0 <= i < j < folders.len() ==> (#[trigger] folders[i]).uri != (#[trigger] folders[j]).uri
}

proof fn lemma_with_folders(folders: Seq<FolderView>, added: Seq<FolderView>, uri: Seq<char>)
    requires
        addresses_are_unique(folders),
    ensures
        addresses_are_unique(with_folders(folders, added)),
        lists_folder(with_folders(folders, added), uri) <==> lists_folder(folders, uri)
            || lists_folder(added, uri),
    decreases added.len(),
{
    if added.len() > 0 {
        let shorter = added.drop_last();
        let before = with_folders(folders, shorter);
        let last = added.last();
        lemma_with_folders(folders, shorter, uri);
        lemma_with_folders(folders, shorter, last.uri);
        if lists_folder(added, uri) {
            let i = choose|i: int| 0 <= i < added.len() && (#[trigger] added[i]).uri == uri;
            if i < shorter.len() {
                assert(shorter[i].uri == uri);
            }
        }
        if lists_folder(shorter, uri) {
            let i = choose|i: int| 0 <= i < shorter.len() && (#[trigger] shorter[i]).uri == uri;
            assert(added[i].uri == uri);
        }
        assert(added[added.len() - 1].uri == last.uri);
        let after = with_folder(before, last);
        if !lists_folder(before, last.uri) {
            assert(after == before.push(last));
            if lists_folder(before, uri) {
                let i = choose|i: int| 0 <= i < before.len() && (#[trigger] before[i]).uri == uri;
                assert(after[i].uri == uri);
            }
            assert(after[before.len() as int].uri == last.uri);
            if lists_folder(after, uri) {
                let i = choose|i: int| 0 <= i < after.len() && (#[trigger] after[i]).uri == uri;
                if i < before.len() {
                    assert(before[i].uri == uri);
                }
            }
            assert forall|i: int, j: int| 0 <= i < j < after.len() implies (
            #[trigger] after[i]).uri != (#[trigger] after[j]).uri by {
                assert(before[i] == after[i]);
                if j < before.len() {
                    assert(before[j] == after[j]);
                }
            }
        }
    }
}

proof fn lemma_staying_unique(folders: Seq<FolderView>, removed: Seq<FolderView>, uri: Seq<char>)
    requires
        addresses_are_unique(folders),
    ensures
        addresses_are_unique(folders.filter(staying(removed))),
        lists_folder(folders.filter(staying(removed)), uri) <==> lists_folder(folders, uri)
            && !lists_folder(removed, uri),
    decreases folders.len(),
{
    reveal(Seq::filter);
    let keep = staying(removed);
    if folders.len() > 0 {
        let shorter = folders.drop_last();
        let last = folders.last();
        assert(addresses_are_unique(shorter)) by {
            assert forall|i: int, j: int| 0 <= i < j < shorter.len() implies (
            #[trigger] shorter[i]).uri != (#[trigger] shorter[j]).uri by {
                assert(folders[i].uri != folders[j].uri);
            }
        }
        lemma_staying_unique(shorter, removed, uri);
        lemma_staying_unique(shorter, removed, last.uri);
        let kept = shorter.filter(keep);
        let after = folders.filter(keep);
        assert(after == (if keep(last) {
            kept.push(last)
        } else {
            kept
        }));
        assert(!lists_folder(shorter, last.uri)) by {
            if lists_folder(shorter, last.uri) {
                let i = choose|i: int|
                    0 <= i < shorter.len() && (#[trigger] shorter[i]).uri == last.uri;
                assert(folders[i].uri != folders[folders.len() - 1].uri);
            }
        }
        if lists_folder(folders, uri) {
            let i = choose|i: int| 0 <= i < folders.len() && (#[trigger] folders[i]).uri == uri;
            if i < shorter.len() {
                assert(shorter[i].uri == uri);
            }
        }
        if lists_folder(shorter, uri) {
            let i = choose|i: int| 0 <= i < shorter.len() && (#[trigger] shorter[i]).uri == uri;
            assert(folders[i].uri == uri);
        }
        assert(folders[folders.len() - 1].uri == last.uri);
        if keep(last) {
            assert(after[kept.len() as int].uri == last.uri);
            if lists_folder(kept, uri) {
                let i = choose|i: int| 0 <= i < kept.len() && (#[trigger] kept[i]).uri == uri;
                assert(after[i].uri == uri);
            }
            if lists_folder(after, uri) {
                let i = choose|i: int| 0 <= i < after.len() && (#[trigger] after[i]).uri == uri;
                if i < kept.len() {
                    assert(kept[i].uri == uri);
                }
            }
            assert forall|i: int, j: int| 0 <= i < j < after.len() implies (
            #[trigger] after[i]).uri != (#[trigger] after[j]).uri by {
                assert(kept[i] == after[i]);
                if j < kept.len() {
                    assert(kept[j] == after[j]);
                } else {
                    assert(!lists_folder(kept, last.uri));
                }
            }
        }
    }
}

/// After a change exactly those folders are listed that were added, or that were
/// listed before and not removed, and none of them twice.
pub proof fn changes_take_effect(
    folders: Option<Seq<FolderView>>,
    added: Seq<FolderView>,
    removed: Seq<FolderView>,
    uri: Seq<char>,
)
    requires
        addresses_are_unique(listed(folders)),
    ensures
        addresses_are_unique(listed(after_change(folders, added, removed))),
        serves(after_change(folders, added, removed), uri) <==> lists_folder(added, uri) || (serves(
            folders,
            uri,
        ) && !lists_folder(removed, uri)),
{
    lemma_staying_unique(listed(folders), removed, uri);
    lemma_with_folders(listed(folders).filter(staying(removed)), added, uri);
}

proof fn lemma_with_folders_front(folders: Seq<FolderView>, added: Seq<FolderView>)
    ensures
        with_folders(folders, added).len() >= folders.len(),
        with_folders(folders, added).take(folders.len() as int) == folders,
    decreases added.len(),
{
    if added.len() == 0 {
        assert(folders.take(folders.len() as int) =~= folders);
    } else {
        lemma_with_folders_front(folders, added.drop_last());
        let before = with_folders(folders, added.drop_last());
        let after = with_folders(folders, added);
        assert(after.take(folders.len() as int) =~= before.take(folders.len() as int));
    }
}

proof fn lemma_with_new_folders(folders: Seq<FolderView>, added: Seq<FolderView>)
    requires
        forall|i: int, j: int|
            0 <= i < folders.len() && 0 <= j < added.len() ==> (#[trigger] folders[i]).uri != (
            #[trigger] added[j]).uri,
        forall|i: int, j: int|
            0 <= i < j < added.len() ==> (#[trigger] added[i]).uri != (#[trigger] added[j]).uri,
    ensures
        with_folders(folders, added) == folders + added,
    decreases added.len(),
{
    if added.len() == 0 {
        assert(folders + added =~= folders);
    } else {
        let shorter = added.drop_last();
        let last = added.last();
        assert forall|i: int, j: int|
            0 <= i < folders.len() && 0 <= j < shorter.len() implies (#[trigger] folders[i]).uri
            != (#[trigger] shorter[j]).uri by {
            assert(shorter[j] == added[j]);
        }
        assert forall|i: int, j: int| 0 <= i < j < shorter.len() implies (
        #[trigger] shorter[i]).uri != (#[trigger] shorter[j]).uri by {
            assert(shorter[i] == added[i] && shorter[j] == added[j]);
        }
        lemma_with_new_folders(folders, shorter);
        let before = folders + shorter;
        assert(!lists_folder(before, last.uri)) by {
            if lists_folder(before, last.uri) {
                let i = choose|i: int|
                    0 <= i < before.len() && (#[trigger] before[i]).uri == last.uri;
                assert(added[added.len() - 1] == last);
                if i < folders.len() {
                    assert(folders[i].uri == last.uri);
                } else {
                    assert(added[i - folders.len()].uri == last.uri);
                }
            }
        }
        assert(before.push(last) =~= folders + added);
    }
}

proof fn lemma_none_removed(folders: Seq<FolderView>)
    ensures
        folders.filter(staying(Seq::empty())) == folders,
{
    let keep = staying(Seq::empty());
    assert forall|i: int| 0 <= i < folders.len() implies keep(#[trigger] folders[i]) by {}
    crate::seqs::lemma_filter_keeps_all(folders, keep);
}

/// The folders that stay come first, as they are and in their order. New folders
/// with addresses of their own come after them, in the order in which they were
/// added. What is only added moves nothing.
pub proof fn folders_keep_their_order(
    folders: Seq<FolderView>,
    added: Seq<FolderView>,
    removed: Seq<FolderView>,
)
    ensures
        ({
            let stays = |folder: FolderView|
                forall|i: int| 0 <= i < removed.len() ==> (#[trigger] removed[i]).uri != folder.uri;
            let kept = folders.filter(stays);
            let after = listed(after_change(Some(folders), added, removed));
            &&& after.len() >= kept.len()
            &&& after.take(kept.len() as int) == kept
            &&& (forall|i: int, j: int|
                0 <= i < kept.len() && 0 <= j < added.len() ==> (#[trigger] kept[i]).uri != (
                #[trigger] added[j]).uri) && (forall|i: int, j: int|
                0 <= i < j < added.len() ==> (#[trigger] added[i]).uri != (
                #[trigger] added[j]).uri) ==> after == kept + added
        }),
        listed(after_change(Some(folders), added, Seq::empty())).take(folders.len() as int)
            == folders,
        listed(after_change(Some(folders), added, Seq::empty())).len() >= folders.len(),
        after_change(None, added, removed) == after_change(Some(Seq::empty()), added, removed),
{
    let stays = |folder: FolderView|
        forall|i: int| 0 <= i < removed.len() ==> (#[trigger] removed[i]).uri != folder.uri;
    assert(stays =~= staying(removed)) by {
        assert forall|folder: FolderView| #[trigger] stays(folder) == staying(removed)(folder) by {
            if lists_folder(removed, folder.uri) {
                let i = choose|i: int|
                    0 <= i < removed.len() && (#[trigger] removed[i]).uri == folder.uri;
                assert(removed[i].uri == folder.uri);
            }
        }
    }
    let kept = folders.filter(stays);
    lemma_with_folders_front(kept, added);
    lemma_none_removed(folders);
    lemma_with_folders_front(folders, added);
    if (forall|i: int, j: int|
        0 <= i < kept.len() && 0 <= j < added.len() ==> (#[trigger] kept[i]).uri != (
        #[trigger] added[j]).uri) && (forall|i: int, j: int|
        0 <= i < j < added.len() ==> (#[trigger] added[i]).uri != (#[trigger] added[j]).uri) {
        lemma_with_new_folders(kept, added);
    }
}

/// A folder is found by its address, whatever its name, and nothing else is.
pub proof fn folders_are_found_by_address(folders: Seq<FolderView>, uri: Seq<char>)
    ensures
        serves(Some(folders), uri) <==> folders.map_values(|folder: FolderView| folder.uri).contains(
            uri,
        ),
        !serves(None, uri),
{
    let addresses = folders.map_values(|folder: FolderView| folder.uri);
    if lists_folder(folders, uri) {
        let i = choose|i: int| 0 <= i < folders.len() && (#[trigger] folders[i]).uri == uri;
        assert(addresses[i] == uri);
    }
    if addresses.contains(uri) {
        let i = choose|i: int| 0 <= i < addresses.len() && addresses[i] == uri;
        assert(folders[i].uri == uri);
    }
}

/// Two folders are the same exactly where address and name agree, and a list has the
/// content of each of its entries.
pub proof fn folders_say_every_part(
    one: WorkspaceFolder,
    two: WorkspaceFolder,
    list: Vec<WorkspaceFolder>,
    i: int,
)
    ensures
        one@ == two@ <==> one.uri@ == two.uri@ && one.name@ == two.name@,
        one@.uri == one.uri@ && one@.name == one.name@,
        folder_views(list@).len() == list@.len(),
        0 <= i < list@.len() ==> folder_views(list@)[i] == list@[i]@,
        optional_folder_views(Some(list)) == Some(folder_views(list@)),
        optional_folder_views(None) is None,
{
}

} // verus!
