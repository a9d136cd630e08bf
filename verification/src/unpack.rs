//! Unpacking a directory tree embedded in the program: the files and
//! directories to create, in the order in which they are created.
use vstd::prelude::*;

verus! {

/// An embedded file: its path relative to the embedded root, and its bytes.
#[derive(Debug)]
pub struct IncludedFile {
    pub path: String,
    pub contents: Vec<u8>,
}

/// An embedded directory: its path relative to the embedded root, its
/// files and its subdirectories.
#[derive(Debug)]
pub struct IncludedDir {
    pub path: String,
    pub files: Vec<IncludedFile>,
    pub dirs: Vec<IncludedDir>,
}

/// One step of unpacking, with a path relative to the target root.
#[derive(Debug)]
pub enum UnpackStep {
    /// Write a file with these bytes.
    WriteFile(String, Vec<u8>),
    /// Create a directory and its missing parents.
    CreateDir(String),
}

/// An [`UnpackStep`] as sequences.
pub enum StepView {
    WriteFile(Seq<char>, Seq<u8>),
    CreateDir(Seq<char>),
}

impl View for UnpackStep {
    type V = StepView;

    open spec fn view(&self) -> StepView {
        match self {
            UnpackStep::WriteFile(path, contents) => StepView::WriteFile(path@, contents@),
            UnpackStep::CreateDir(path) => StepView::CreateDir(path@),
        }
    }
}

/// The views of a sequence of steps.
pub open spec fn steps_view(steps: Seq<UnpackStep>) -> Seq<StepView> {
    steps.map_values(|s: UnpackStep| s@)
}

/// Writing each file of a directory, in order.
pub open spec fn file_steps(files: Seq<IncludedFile>) -> Seq<StepView> {
    files.map_values(|f: IncludedFile| StepView::WriteFile(f.path@, f.contents@))
}

/// Unpacking a directory: its files first, then, for each subdirectory in
/// order, creating it and unpacking it.
pub open spec fn dir_steps(dir: IncludedDir) -> Seq<StepView>
    decreases dir,
{
    file_steps(dir.files@) + subdirs_steps(dir.dirs@)
}

/// Creating and unpacking each of these directories, in order.
pub open spec fn subdirs_steps(dirs: Seq<IncludedDir>) -> Seq<StepView>
    decreases dirs,
{
    if dirs.len() == 0 {
        Seq::empty()
    } else {
        let last = dirs[dirs.len() - 1];
        subdirs_steps(dirs.subrange(0, dirs.len() - 1)) + seq![StepView::CreateDir(last.path@)]
            + dir_steps(last)
    }
}

/// Each of these directories is created, and right after its creation
/// comes the whole of its unpacking.
pub proof fn lemma_subdirs_steps_nested(dirs: Seq<IncludedDir>, k: int)
    requires
        0 <= k < dirs.len(),
    ensures
        exists|p: int|
            0 <= p && p + 1 + dir_steps(dirs[k]).len() <= subdirs_steps(dirs).len()
                && subdirs_steps(dirs)[p] == StepView::CreateDir(dirs[k].path@) && subdirs_steps(
                dirs,
            ).subrange(p + 1, p + 1 + dir_steps(dirs[k]).len()) == dir_steps(dirs[k]),
    decreases dirs.len(),
{
    let init = dirs.subrange(0, dirs.len() - 1);
    let last = dirs[dirs.len() - 1];
    let before = subdirs_steps(init);
    let all = subdirs_steps(dirs);
    assert(all == before + seq![StepView::CreateDir(last.path@)] + dir_steps(last));
    if k == dirs.len() - 1 {
        let p = before.len() as int;
        assert(all[p] == StepView::CreateDir(last.path@));
        assert(all.subrange(p + 1, p + 1 + dir_steps(last).len()) =~= dir_steps(last));
    } else {
        lemma_subdirs_steps_nested(init, k);
        assert(init[k] == dirs[k]);
        let p = choose|p: int|
            0 <= p && p + 1 + dir_steps(init[k]).len() <= subdirs_steps(init).len()
                && subdirs_steps(init)[p] == StepView::CreateDir(init[k].path@) && subdirs_steps(
                init,
            ).subrange(p + 1, p + 1 + dir_steps(init[k]).len()) == dir_steps(init[k]);
        assert(all[p] == before[p]);
        assert(all.subrange(p + 1, p + 1 + dir_steps(dirs[k]).len()) =~= before.subrange(
            p + 1,
            p + 1 + dir_steps(dirs[k]).len(),
        ));
    }
}

/// Unpacking a directory writes each of its files, in order, before
/// anything else; then each subdirectory is created, and right after its
/// creation comes the whole of its unpacking.
pub proof fn lemma_dir_steps_shape(dir: IncludedDir)
    ensures
        forall|i: int|
            0 <= i < dir.files@.len() ==> dir_steps(dir)[i] == StepView::WriteFile(
                (#[trigger] dir.files@[i]).path@,
                dir.files@[i].contents@,
            ),
        forall|k: int|
            0 <= k < dir.dirs@.len() ==> exists|p: int|
                dir.files@.len() <= p && p + 1 + dir_steps(#[trigger] dir.dirs@[k]).len()
                    <= dir_steps(dir).len() && dir_steps(dir)[p] == StepView::CreateDir(
                    dir.dirs@[k].path@,
                ) && dir_steps(dir).subrange(p + 1, p + 1 + dir_steps(dir.dirs@[k]).len())
                    == dir_steps(dir.dirs@[k]),
{
    let files = file_steps(dir.files@);
    let subs = subdirs_steps(dir.dirs@);
    assert(dir_steps(dir) == files + subs);
    assert forall|k: int| 0 <= k < dir.dirs@.len() implies exists|p: int|
        dir.files@.len() <= p && p + 1 + dir_steps(#[trigger] dir.dirs@[k]).len() <= dir_steps(
            dir,
        ).len() && dir_steps(dir)[p] == StepView::CreateDir(dir.dirs@[k].path@) && dir_steps(
            dir,
        ).subrange(p + 1, p + 1 + dir_steps(dir.dirs@[k]).len()) == dir_steps(dir.dirs@[k]) by {
        lemma_subdirs_steps_nested(dir.dirs@, k);
        let sub = dir.dirs@[k];
        let q = choose|q: int|
            0 <= q && q + 1 + dir_steps(sub).len() <= subs.len() && subs[q]
                == StepView::CreateDir(sub.path@) && subs.subrange(
                q + 1,
                q + 1 + dir_steps(sub).len(),
            ) == dir_steps(sub);
        let p = files.len() + q;
        assert(dir_steps(dir)[p] == subs[q]);
        assert(dir_steps(dir).subrange(p + 1, p + 1 + dir_steps(sub).len()) =~= subs.subrange(
            q + 1,
            q + 1 + dir_steps(sub).len(),
        ));
    }
}

/// Appends the steps that unpack `dir`.
fn push_dir_steps(dir: &IncludedDir, steps: &mut Vec<UnpackStep>)
    ensures
        steps_view(final(steps)@) == steps_view(old(steps)@) + dir_steps(*dir),
    decreases dir,
{
    let ghost start = steps_view(steps@);
    let mut i: usize = 0;
    while i < dir.files.len()
        invariant
            i <= dir.files.len(),
            steps_view(steps@) == start + file_steps(dir.files@.take(i as int)),
        decreases dir.files.len() - i,
    {
        let file = &dir.files[i];
        let ghost before = steps@;
        let contents = file.contents.clone();
        assert(contents@ =~= file.contents@);
        steps.push(UnpackStep::WriteFile(file.path.clone(), contents));
        proof {
            assert(steps_view(steps@) =~= steps_view(before).push(
                StepView::WriteFile(file.path@, file.contents@),
            ));
            assert(dir.files@.take(i + 1) =~= dir.files@.take(i as int).push(*file));
            assert(file_steps(dir.files@.take(i + 1)) =~= file_steps(dir.files@.take(i as int)).push(
                StepView::WriteFile(file.path@, file.contents@),
            ));
        }
        i = i + 1;
    }
    assert(dir.files@.take(dir.files.len() as int) =~= dir.files@);
    assert(dir.dirs@.subrange(0, 0) =~= Seq::<IncludedDir>::empty());
    let mut k: usize = 0;
    while k < dir.dirs.len()
        invariant
            k <= dir.dirs.len(),
            steps_view(steps@) == start + file_steps(dir.files@) + subdirs_steps(
                dir.dirs@.subrange(0, k as int),
            ),
        decreases dir.dirs.len() - k,
    {
        let sub = &dir.dirs[k];
        let ghost before = steps@;
        steps.push(UnpackStep::CreateDir(sub.path.clone()));
        proof {
            assert(steps_view(steps@) =~= steps_view(before).push(StepView::CreateDir(sub.path@)));
            assert(decreases_to!(*dir => dir.dirs));
            assert(decreases_to!(dir.dirs => dir.dirs@));
            assert(decreases_to!(dir.dirs@ => dir.dirs@[k as int]));
        }
        push_dir_steps(sub, steps);
        proof {
            let prefix = dir.dirs@.subrange(0, k + 1);
            assert(prefix.subrange(0, prefix.len() - 1) =~= dir.dirs@.subrange(0, k as int));
            assert(prefix[prefix.len() - 1] == *sub);
        }
        k = k + 1;
    }
    assert(dir.dirs@.subrange(0, dir.dirs.len() as int) =~= dir.dirs@);
}

/// The steps that unpack an embedded directory into a target root: each
/// file of the directory written, then each subdirectory created and
/// unpacked in turn, with paths relative to the root.
pub fn unpack_included_dir(dir: &IncludedDir) -> (steps: Vec<UnpackStep>)
    ensures
        steps_view(steps@) == dir_steps(*dir),
{
    let mut steps: Vec<UnpackStep> = Vec::new();
    push_dir_steps(dir, &mut steps);
    steps
}

} // verus!
