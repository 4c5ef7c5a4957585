//! Planning an extraction: joining the folder table with the flat index.
//!
//! The folder table names what is to be created; the flat index says where
//! the bytes of a file lie. Each child of each folder is looked up by its
//! path and becomes one [`Action`]. The actions are carried out by the
//! caller, in order; this module only decides them.

use crate::flat::{FlatEntry, FlatEntryView};
use crate::lookup::{
    find_entry, first_match, has_match, is_first_match, lemma_first_match_exists,
};
use crate::text::{join_path, joined, normalize_separators, normalized};
use crate::tree::{FileType, FolderNode, FolderView, Leaf, LeafView};
use vstd::prelude::*;
use vstd::seq_lib::{to_multiset_contains, to_multiset_len};

verus! {

/// One step of an extraction. Paths are relative to the root of the
/// archive, with `/` between their parts.
#[derive(Debug, PartialEq, Eq)]
pub enum Action {
    /// Make sure that the directory at `path` exists.
    CreateDir { path: String },
    /// Create the file at `path`, or empty it if it exists, and fill it with
    /// the `length` bytes that lie `offset` bytes into the data section.
    WriteFile { path: String, offset: i32, length: i32 },
    /// Report that the file at `path` is named in the folder table but has
    /// no entry in the flat index, and go on with the next step.
    SkipMissing { path: String },
}

/// An [`Action`] as specifications see it.
pub enum ActionView {
    CreateDir { path: Seq<char> },
    WriteFile { path: Seq<char>, offset: i32, length: i32 },
    SkipMissing { path: Seq<char> },
}

impl View for Action {
    type V = ActionView;

    open spec fn view(&self) -> ActionView {
        match self {
            Action::CreateDir { path } => ActionView::CreateDir { path: path@ },
            Action::WriteFile { path, offset, length } => ActionView::WriteFile {
                path: path@,
                offset: *offset,
                length: *length,
            },
            Action::SkipMissing { path } => ActionView::SkipMissing { path: path@ },
        }
    }
}

impl DeepView for Action {
    type V = ActionView;

    open spec fn deep_view(&self) -> ActionView {
        self@
    }
}

/// What is to be done for one child of the folder named `folder`. A folder
/// marker is a directory to create; nothing is looked up for it. A file is
/// looked up by its path: found, it is written from where the index says;
/// not found, it is skipped.
pub open spec fn leaf_action(entries: Seq<FlatEntryView>, folder: Seq<char>, leaf: LeafView)
    -> ActionView {
    let path = joined(folder, leaf.name);
    match leaf.kind {
        FileType::Folder => ActionView::CreateDir { path },
        FileType::File => match first_match(entries, path) {
            Some(i) => ActionView::WriteFile {
                path,
                offset: entries[i].offset,
                length: entries[i].length,
            },
            None => ActionView::SkipMissing { path },
        },
    }
}

/// The actions of the children of the folder named `folder`: one for each,
/// in stored order, and none depending on any other.
pub open spec fn leaf_actions(
    entries: Seq<FlatEntryView>,
    folder: Seq<char>,
    children: Seq<LeafView>,
) -> Seq<ActionView> {
    children.map_values(|leaf: LeafView| leaf_action(entries, folder, leaf))
}

/// The actions of one folder: its own directory first, then those of its
/// children.
pub open spec fn folder_actions(entries: Seq<FlatEntryView>, folder: FolderView) -> Seq<
    ActionView,
> {
    seq![ActionView::CreateDir { path: normalized(folder.name) }] + leaf_actions(
        entries,
        folder.name,
        folder.children,
    )
}

/// The actions of a whole folder table: those of each folder, in stored
/// order. No folder's actions depend on any other folder.
pub open spec fn extraction_plan(entries: Seq<FlatEntryView>, folders: Seq<FolderView>) -> Seq<
    ActionView,
>
    decreases folders.len(),
{
    if folders.len() == 0 {
        Seq::empty()
    } else {
        extraction_plan(entries, folders.drop_last()) + folder_actions(entries, folders.last())
    }
}

/// Decides what is to be done for `leaf`, a child of the folder named
/// `folder`.
pub fn resolve_leaf(entries: &Vec<FlatEntry>, folder: &str, leaf: &Leaf) -> (action: Action)
    ensures
        action@ == leaf_action(entries.deep_view(), folder@, leaf@),
{
    let path = join_path(folder, leaf.name.as_str());
    match leaf.kind {
        FileType::Folder => Action::CreateDir { path },
        FileType::File => match find_entry(entries, &path) {
            Ok(i) => {
                let entry = &entries[i];
                Action::WriteFile { path, offset: entry.offset, length: entry.length }
            },
            Err(_) => Action::SkipMissing { path },
        },
    }
}

/// Appends the actions of `folder` to `plan`.
pub fn plan_folder(entries: &Vec<FlatEntry>, folder: &FolderNode, plan: &mut Vec<Action>)
    ensures
        final(plan).deep_view() == old(plan).deep_view() + folder_actions(
            entries.deep_view(),
            folder@,
        ),
{
    let ghost before = plan.deep_view();
    let ghost own = seq![ActionView::CreateDir { path: normalized(folder@.name) }];
    plan.push(Action::CreateDir { path: normalize_separators(folder.name.as_str()) });
    let mut i: usize = 0;
    while i < folder.children.len()
        invariant
            i <= folder.children.len(),
            own == seq![ActionView::CreateDir { path: normalized(folder@.name) }],
            plan.deep_view() == before + own + leaf_actions(
                entries.deep_view(),
                folder@.name,
                folder@.children.take(i as int),
            ),
        decreases folder.children.len() - i,
    {
        let ghost sofar = plan.deep_view();
        let action = resolve_leaf(entries, folder.name.as_str(), &folder.children[i]);
        plan.push(action);
        proof {
            assert(plan.deep_view() =~= sofar.push(action@));
            assert(leaf_actions(entries.deep_view(), folder@.name, folder@.children.take(i + 1))
                =~= leaf_actions(
                entries.deep_view(),
                folder@.name,
                folder@.children.take(i as int),
            ).push(action@));
        }
        i = i + 1;
    }
}

/// Plans the extraction of a whole archive: for each folder, in stored
/// order, its directory and then one action for each of its children. A file
/// without an index entry is skipped, whatever stands before or after it;
/// planning never fails.
pub fn plan_extraction(entries: &Vec<FlatEntry>, folders: &Vec<FolderNode>) -> (plan: Vec<Action>)
    ensures
        plan.deep_view() == extraction_plan(entries.deep_view(), folders.deep_view()),
{
    let mut plan: Vec<Action> = Vec::new();
    let mut i: usize = 0;
    while i < folders.len()
        invariant
            i <= folders.len(),
            plan.deep_view() == extraction_plan(
                entries.deep_view(),
                folders.deep_view().take(i as int),
            ),
        decreases folders.len() - i,
    {
        plan_folder(entries, &folders[i], &mut plan);
        proof {
            let upto = folders.deep_view().take(i + 1);
            assert(upto.drop_last() =~= folders.deep_view().take(i as int));
        }
        i = i + 1;
    }
    proof {
        assert(folders.deep_view().take(i as int) =~= folders.deep_view());
    }
    plan
}

/// The number of actions in the plan of `folders`: for each folder one, and
/// one more for each of its children.
pub open spec fn plan_len(folders: Seq<FolderView>) -> nat
    decreases folders.len(),
{
    if folders.len() == 0 {
        0
    } else {
        plan_len(folders.drop_last()) + 1 + folders.last().children.len()
    }
}

/// The place in the plan of the action that creates the directory of the
/// folder at `f`.
pub open spec fn folder_index(folders: Seq<FolderView>, f: int) -> int {
    plan_len(folders.take(f)) as int
}

/// The place in the plan of the action for the child at `c` of the folder at
/// `f`.
pub open spec fn leaf_index(folders: Seq<FolderView>, f: int, c: int) -> int {
    folder_index(folders, f) + 1 + c
}

/// A plan has as many actions as [`plan_len`] says.
pub proof fn lemma_plan_len(entries: Seq<FlatEntryView>, folders: Seq<FolderView>)
    ensures
        extraction_plan(entries, folders).len() == plan_len(folders),
    decreases folders.len(),
{
    if folders.len() > 0 {
        lemma_plan_len(entries, folders.drop_last());
    }
}

/// The plan of the first `f` folders is the start of the plan of them all:
/// what comes later in the table changes nothing of what came before.
pub proof fn lemma_plan_prefix(entries: Seq<FlatEntryView>, folders: Seq<FolderView>, f: int)
    requires
        0 <= f <= folders.len(),
    ensures
        plan_len(folders.take(f)) <= plan_len(folders),
        extraction_plan(entries, folders).take(plan_len(folders.take(f)) as int)
            == extraction_plan(entries, folders.take(f)),
    decreases folders.len(),
{
    lemma_plan_len(entries, folders);
    if f == folders.len() {
        assert(folders.take(f) =~= folders);
        assert(extraction_plan(entries, folders).take(plan_len(folders) as int)
            =~= extraction_plan(entries, folders));
    } else {
        let earlier = folders.drop_last();
        lemma_plan_prefix(entries, earlier, f);
        lemma_plan_len(entries, earlier);
        assert(earlier.take(f) =~= folders.take(f));
        assert(extraction_plan(entries, folders).take(plan_len(folders.take(f)) as int)
            =~= extraction_plan(entries, earlier).take(plan_len(folders.take(f)) as int));
    }
}

/// The directory of each folder is created at the folder's place in the
/// plan, before anything in it.
pub proof fn lemma_action_of_folder(entries: Seq<FlatEntryView>, folders: Seq<FolderView>, f: int)
    requires
        0 <= f < folders.len(),
    ensures
        0 <= folder_index(folders, f) < extraction_plan(entries, folders).len(),
        extraction_plan(entries, folders)[folder_index(folders, f)] == (ActionView::CreateDir {
            path: normalized(folders[f].name),
        }),
{
    let upto = folders.take(f + 1);
    lemma_plan_prefix(entries, folders, f + 1);
    lemma_plan_len(entries, upto);
    lemma_plan_len(entries, folders);
    assert(upto.drop_last() =~= folders.take(f));
    lemma_plan_len(entries, folders.take(f));
    let at = folder_index(folders, f);
    assert(extraction_plan(entries, folders).take(plan_len(upto) as int)[at]
        == extraction_plan(entries, folders)[at]);
}

/// The action for a child stands at the child's place in the plan, and is
/// decided by the child, its folder's name and the flat index alone: no
/// other child and no other folder has a part in it.
pub proof fn lemma_action_of_leaf(
    entries: Seq<FlatEntryView>,
    folders: Seq<FolderView>,
    f: int,
    c: int,
)
    requires
        0 <= f < folders.len(),
        0 <= c < folders[f].children.len(),
    ensures
        0 <= leaf_index(folders, f, c) < extraction_plan(entries, folders).len(),
        extraction_plan(entries, folders)[leaf_index(folders, f, c)] == leaf_action(
            entries,
            folders[f].name,
            folders[f].children[c],
        ),
{
    let upto = folders.take(f + 1);
    lemma_plan_prefix(entries, folders, f + 1);
    lemma_plan_len(entries, upto);
    lemma_plan_len(entries, folders);
    assert(upto.drop_last() =~= folders.take(f));
    lemma_plan_len(entries, folders.take(f));
    let at = leaf_index(folders, f, c);
    assert(extraction_plan(entries, folders).take(plan_len(upto) as int)[at]
        == extraction_plan(entries, folders)[at]);
}

/// A file that has no entry in the flat index is skipped, and nothing else
/// comes of it: the plan holds a `SkipMissing` at the file's place, and
/// every child of every folder, before it or after it, has at its own place
/// the action that the child alone decides.
pub proof fn lemma_missing_file_is_skipped(
    entries: Seq<FlatEntryView>,
    folders: Seq<FolderView>,
    f: int,
    c: int,
)
    requires
        0 <= f < folders.len(),
        0 <= c < folders[f].children.len(),
        folders[f].children[c].kind == FileType::File,
        !has_match(entries, joined(folders[f].name, folders[f].children[c].name)),
    ensures
        0 <= leaf_index(folders, f, c) < extraction_plan(entries, folders).len(),
        extraction_plan(entries, folders)[leaf_index(folders, f, c)] == (ActionView::SkipMissing {
            path: joined(folders[f].name, folders[f].children[c].name),
        }),
        forall|g: int, d: int|
            0 <= g < folders.len() && 0 <= d < folders[g].children.len() ==> {
                &&& 0 <= leaf_index(folders, g, d) < extraction_plan(entries, folders).len()
                &&& #[trigger] extraction_plan(entries, folders)[leaf_index(folders, g, d)]
                    == leaf_action(entries, folders[g].name, folders[g].children[d])
            },
{
    lemma_action_of_leaf(entries, folders, f, c);
    lemma_first_match_exists(entries, joined(folders[f].name, folders[f].children[c].name));
    assert forall|g: int, d: int|
        0 <= g < folders.len() && 0 <= d < folders[g].children.len() implies {
        &&& 0 <= leaf_index(folders, g, d) < extraction_plan(entries, folders).len()
        &&& #[trigger] extraction_plan(entries, folders)[leaf_index(folders, g, d)] == leaf_action(
            entries,
            folders[g].name,
            folders[g].children[d],
        )
    } by {
        lemma_action_of_leaf(entries, folders, g, d);
    }
}

/// Tells the actions that write a file from the others.
pub open spec fn is_write() -> spec_fn(ActionView) -> bool {
    |action: ActionView| action is WriteFile
}

/// Tells the actions that skip a file from the others.
pub open spec fn is_skip() -> spec_fn(ActionView) -> bool {
    |action: ActionView| action is SkipMissing
}

/// Tells the children that are files from the folder markers.
pub open spec fn is_file() -> spec_fn(LeafView) -> bool {
    |leaf: LeafView| leaf.kind == FileType::File
}

/// The actions of `plan` that write a file, in order.
pub open spec fn written(plan: Seq<ActionView>) -> Seq<ActionView> {
    plan.filter(is_write())
}

/// The actions of `plan` that skip a file, in order.
pub open spec fn skipped(plan: Seq<ActionView>) -> Seq<ActionView> {
    plan.filter(is_skip())
}

/// The paths of the files among `children`, which belong to the folder named
/// `folder`, in stored order.
pub open spec fn file_paths_in(folder: Seq<char>, children: Seq<LeafView>) -> Seq<Seq<char>> {
    children.filter(is_file()).map_values(|leaf: LeafView| joined(folder, leaf.name))
}

/// The paths of all files that the folder table names, in stored order.
pub open spec fn file_paths(folders: Seq<FolderView>) -> Seq<Seq<char>>
    decreases folders.len(),
{
    if folders.len() == 0 {
        Seq::empty()
    } else {
        file_paths(folders.drop_last()) + file_paths_in(
            folders.last().name,
            folders.last().children,
        )
    }
}

/// The paths of the entries of the flat index, in stored order.
pub open spec fn entry_paths(entries: Seq<FlatEntryView>) -> Seq<Seq<char>> {
    entries.map_values(|entry: FlatEntryView| entry.path)
}

/// True when every file among `children` has an entry in the flat index.
pub open spec fn leaves_indexed(
    entries: Seq<FlatEntryView>,
    folder: Seq<char>,
    children: Seq<LeafView>,
) -> bool {
    forall|c: int|
        0 <= c < children.len() && (#[trigger] children[c]).kind == FileType::File ==> has_match(
            entries,
            joined(folder, children[c].name),
        )
}

/// True when every file that the folder table names has an entry in the flat
/// index.
pub open spec fn all_indexed(entries: Seq<FlatEntryView>, folders: Seq<FolderView>) -> bool {
    forall|f: int|
        0 <= f < folders.len() ==> leaves_indexed(
            entries,
            (#[trigger] folders[f]).name,
            folders[f].children,
        )
}

/// True when `action` is what the flat index asks for: a file is written
/// from where the first entry with its path says, and a file is skipped only
/// if no entry has its path.
pub open spec fn follows_index(entries: Seq<FlatEntryView>, action: ActionView) -> bool {
    match action {
        ActionView::CreateDir { .. } => true,
        ActionView::WriteFile { path, offset, length } => exists|i: int|
            #![trigger entries[i]]
            is_first_match(entries, path, i) && entries[i].offset == offset && entries[i].length
                == length,
        ActionView::SkipMissing { path } => !has_match(entries, path),
    }
}

/// The action for a child is what the flat index asks for.
pub proof fn lemma_leaf_action_follows_index(
    entries: Seq<FlatEntryView>,
    folder: Seq<char>,
    leaf: LeafView,
)
    ensures
        follows_index(entries, leaf_action(entries, folder, leaf)),
{
    lemma_first_match_exists(entries, joined(folder, leaf.name));
}

/// Every action of a plan is what the flat index asks for.
pub proof fn lemma_plan_follows_index(entries: Seq<FlatEntryView>, folders: Seq<FolderView>)
    ensures
        forall|k: int|
            0 <= k < extraction_plan(entries, folders).len() ==> follows_index(
                entries,
                #[trigger] extraction_plan(entries, folders)[k],
            ),
    decreases folders.len(),
{
    if folders.len() > 0 {
        let earlier = extraction_plan(entries, folders.drop_last());
        let folder = folders.last();
        lemma_plan_follows_index(entries, folders.drop_last());
        let plan = extraction_plan(entries, folders);
        assert forall|k: int| 0 <= k < plan.len() implies follows_index(
            entries,
            #[trigger] plan[k],
        ) by {
            if k > earlier.len() {
                lemma_leaf_action_follows_index(
                    entries,
                    folder.name,
                    folder.children[k - earlier.len() - 1],
                );
            }
        }
    }
}

/// Where every file among the children of a folder has an entry, the
/// actions of the children hold as many writes as there are files, and skip
/// none.
proof fn lemma_leaves_written(
    entries: Seq<FlatEntryView>,
    folder: Seq<char>,
    children: Seq<LeafView>,
)
    requires
        leaves_indexed(entries, folder, children),
    ensures
        written(leaf_actions(entries, folder, children)).len() == file_paths_in(
            folder,
            children,
        ).len(),
        skipped(leaf_actions(entries, folder, children)).len() == 0,
    decreases children.len(),
{
    let actions = leaf_actions(entries, folder, children);
    if children.len() == 0 {
        actions.lemma_filter_len(is_write());
        actions.lemma_filter_len(is_skip());
        children.lemma_filter_len(is_file());
    } else {
        let before = children.drop_last();
        let last = children.last();
        let action = leaf_action(entries, folder, last);
        assert(leaves_indexed(entries, folder, before));
        lemma_leaves_written(entries, folder, before);
        assert(children =~= before.push(last));
        assert(actions =~= leaf_actions(entries, folder, before).push(action));
        leaf_actions(entries, folder, before).lemma_filter_push(action, is_write());
        leaf_actions(entries, folder, before).lemma_filter_push(action, is_skip());
        before.lemma_filter_push(last, is_file());
        lemma_first_match_exists(entries, joined(folder, last.name));
    }
}

/// Where every file that the folder table names has an entry in the flat
/// index, every one of them is written and none is skipped: the plan holds
/// exactly as many writes as the table names files.
pub proof fn lemma_indexed_files_are_written(
    entries: Seq<FlatEntryView>,
    folders: Seq<FolderView>,
)
    requires
        all_indexed(entries, folders),
    ensures
        written(extraction_plan(entries, folders)).len() == file_paths(folders).len(),
        skipped(extraction_plan(entries, folders)).len() == 0,
    decreases folders.len(),
{
    let plan = extraction_plan(entries, folders);
    if folders.len() == 0 {
        plan.lemma_filter_len(is_write());
        plan.lemma_filter_len(is_skip());
    } else {
        let earlier = folders.drop_last();
        let folder = folders.last();
        assert(all_indexed(entries, earlier));
        lemma_indexed_files_are_written(entries, earlier);
        lemma_leaves_written(entries, folder.name, folder.children);
        let own = seq![ActionView::CreateDir { path: normalized(folder.name) }];
        let inner = leaf_actions(entries, folder.name, folder.children);
        Seq::<ActionView>::empty().lemma_filter_push(own[0], is_write());
        Seq::<ActionView>::empty().lemma_filter_push(own[0], is_skip());
        Seq::<ActionView>::empty().lemma_filter_len(is_write());
        Seq::<ActionView>::empty().lemma_filter_len(is_skip());
        Seq::filter_distributes_over_add(own, inner, is_write());
        Seq::filter_distributes_over_add(own, inner, is_skip());
        Seq::filter_distributes_over_add(
            extraction_plan(entries, earlier),
            own + inner,
            is_write(),
        );
        Seq::filter_distributes_over_add(extraction_plan(entries, earlier), own + inner, is_skip());
    }
}

/// The path of every file that the folder table names is among
/// [`file_paths`].
proof fn lemma_file_path_listed(folders: Seq<FolderView>, f: int, c: int)
    requires
        0 <= f < folders.len(),
        0 <= c < folders[f].children.len(),
        folders[f].children[c].kind == FileType::File,
    ensures
        file_paths(folders).contains(joined(folders[f].name, folders[f].children[c].name)),
    decreases folders.len(),
{
    let path = joined(folders[f].name, folders[f].children[c].name);
    let earlier = file_paths(folders.drop_last());
    let own = file_paths_in(folders.last().name, folders.last().children);
    if f == folders.len() - 1 {
        let children = folders[f].children;
        children.lemma_filter_contains(is_file(), c);
        let files = children.filter(is_file());
        let at = choose|at: int| 0 <= at < files.len() && files[at] == children[c];
        assert((earlier + own)[earlier.len() + at] == path);
    } else {
        lemma_file_path_listed(folders.drop_last(), f, c);
        let at = choose|at: int| 0 <= at < earlier.len() && earlier[at] == path;
        assert((earlier + own)[at] == path);
    }
}

/// An archive whose folder table names exactly the files of its flat index
/// (the same paths, each as often, in whatever order) is extracted whole:
/// the plan holds one write for each entry of the index and skips nothing,
/// and each write takes its offset and length from the first entry with its
/// path.
pub proof fn lemma_matching_tables_extract_whole(
    entries: Seq<FlatEntryView>,
    folders: Seq<FolderView>,
)
    requires
        file_paths(folders).to_multiset() == entry_paths(entries).to_multiset(),
    ensures
        written(extraction_plan(entries, folders)).len() == entries.len(),
        skipped(extraction_plan(entries, folders)).len() == 0,
        forall|k: int|
            0 <= k < extraction_plan(entries, folders).len() ==> follows_index(
                entries,
                #[trigger] extraction_plan(entries, folders)[k],
            ),
{
    assert(all_indexed(entries, folders)) by {
        assert forall|f: int| 0 <= f < folders.len() implies leaves_indexed(
            entries,
            (#[trigger] folders[f]).name,
            folders[f].children,
        ) by {
            let folder = folders[f];
            assert forall|c: int|
                0 <= c < folder.children.len() && (#[trigger] folder.children[c]).kind
                    == FileType::File implies has_match(
                entries,
                joined(folder.name, folder.children[c].name),
            ) by {
                let path = joined(folder.name, folder.children[c].name);
                lemma_file_path_listed(folders, f, c);
                to_multiset_contains(file_paths(folders), path);
                to_multiset_contains(entry_paths(entries), path);
            }
        }
    }
    lemma_indexed_files_are_written(entries, folders);
    lemma_plan_follows_index(entries, folders);
    to_multiset_len(file_paths(folders));
    to_multiset_len(entry_paths(entries));
}

} // verus!
