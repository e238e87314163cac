//! A table of files. A file has an owner, a name, a mode and a number of
//! blocks of `BLOCK_SIZE` bytes each; the table holds at most one file of
//! each name.
use crate::dump::{push_repeated, push_run, repeated, run_text};
use rand::Rng;
use vstd::prelude::*;
use vstd::string::StringExecFns;

verus! {

/// Bytes in one block.
pub const BLOCK_SIZE: usize = 512;

/// Bytes in one row of a block's dump.
pub const BLOCK_DIM: usize = BLOCK_SIZE / 16;

/// A block of a file's data.
#[derive(Debug, Clone, Copy)]
pub struct Block {
    bytes: [u8; BLOCK_SIZE],
}

impl View for Block {
    type V = Seq<u8>;

    closed spec fn view(&self) -> Seq<u8> {
        self.bytes@
    }
}

/// The first `rows` rows of a block's dump: `BLOCK_DIM` bytes in each,
/// between two bars.
pub open spec fn framed_rows(bytes: Seq<u8>, rows: nat) -> Seq<char>
    decreases rows,
{
    if rows == 0 {
        Seq::<char>::empty()
    } else {
        framed_rows(bytes, (rows - 1) as nat) + "\t│ "@ + run_text(
            bytes.subrange((rows - 1) * BLOCK_DIM, rows * BLOCK_DIM),
        ) + "│\n"@
    }
}

/// The dump of a block that holds `bytes`: its rows in a frame with the
/// heading `Block`.
pub open spec fn block_text(bytes: Seq<u8>) -> Seq<char> {
    "\t┌── Block "@ + repeated("─"@, (BLOCK_DIM * 3 - 8) as nat) + "┐\n"@ + framed_rows(
        bytes,
        (BLOCK_SIZE / BLOCK_DIM) as nat,
    ) + "\t└"@ + repeated("─"@, (BLOCK_DIM * 3 + 1) as nat) + "┘\n"@
}

/// A block's worth of bytes from the thread's random number generator,
/// `rand::thread_rng`, filled in with `Rng::fill`. What the bytes are is a
/// matter of chance, so nothing is claimed of them.
#[verifier::external_body]
fn random_bytes() -> (bytes: [u8; BLOCK_SIZE]) {
    let mut bytes = [0u8; BLOCK_SIZE];
    rand::thread_rng().fill(&mut bytes[..]);
    bytes
}

impl Block {
    /// The block's bytes.
    pub fn bytes(&self) -> (bytes: [u8; BLOCK_SIZE])
        ensures
            bytes@ == self@,
    {
        self.bytes
    }

    /// The dump of the block, for diagnosis.
    pub fn render(&self) -> (text: String)
        ensures
            text@ == block_text(self@),
    {
        let mut text = "\t┌── Block ".to_owned();
        push_repeated(&mut text, "─", BLOCK_DIM * 3 - 8);
        text.append("┐\n");
        let ghost top = text@;
        let mut row: usize = 0;
        while row < BLOCK_SIZE / BLOCK_DIM
            invariant
                row <= BLOCK_SIZE / BLOCK_DIM,
                text@ == top + framed_rows(self@, row as nat),
            decreases BLOCK_SIZE / BLOCK_DIM - row,
        {
            assert(BLOCK_DIM == 32 && self.bytes@.len() == BLOCK_SIZE);
            text.append("\t│ ");
            push_run(&mut text, self.bytes.as_slice(), row * BLOCK_DIM, (row + 1) * BLOCK_DIM);
            text.append("│\n");
            proof {
                assert(text@ =~= top + framed_rows(self@, (row + 1) as nat));
            }
            row += 1;
        }
        text.append("\t└");
        push_repeated(&mut text, "─", BLOCK_DIM * 3 + 1);
        text.append("┘\n");
        proof {
            assert(text@ =~= block_text(self@));
        }
        text
    }
}

impl Default for Block {
    /// A block of random bytes.
    fn default() -> (block: Block)
        ensures
            block@.len() == BLOCK_SIZE,
    {
        Block { bytes: random_bytes() }
    }
}

/// Who a file belongs to.
#[derive(Debug, PartialEq, Eq)]
pub struct Owner {
    pub name: String,
    pub group: String,
}

/// An owner as two texts.
pub struct OwnerView {
    pub name: Seq<char>,
    pub group: Seq<char>,
}

impl View for Owner {
    type V = OwnerView;

    open spec fn view(&self) -> OwnerView {
        OwnerView { name: self.name@, group: self.group@ }
    }
}

impl Clone for Owner {
    fn clone(&self) -> (copy: Owner)
        ensures
            copy@ == self@,
    {
        Owner { name: self.name.clone(), group: self.group.clone() }
    }
}

impl Default for Owner {
    /// The owner `user` of the group `group`.
    fn default() -> (owner: Owner)
        ensures
            owner@.name == "user"@,
            owner@.group == "group"@,
    {
        Owner { name: "user".to_owned(), group: "group".to_owned() }
    }
}

/// A file.
#[derive(Debug)]
pub struct File {
    pub owner: Owner,
    pub name: String,
    pub mode: u16,
    pub blocks: Vec<Block>,
}

/// A file as plain values.
pub struct FileView {
    pub owner: OwnerView,
    pub name: Seq<char>,
    pub mode: u16,
    pub blocks: Seq<Block>,
}

impl View for File {
    type V = FileView;

    open spec fn view(&self) -> FileView {
        FileView {
            owner: self.owner@,
            name: self.name@,
            mode: self.mode,
            blocks: self.blocks@,
        }
    }
}

impl Clone for File {
    fn clone(&self) -> (copy: File)
        ensures
            copy@ == self@,
    {
        let mut blocks: Vec<Block> = Vec::new();
        let mut i: usize = 0;
        while i < self.blocks.len()
            invariant
                i <= self.blocks@.len(),
                blocks@ == self.blocks@.take(i as int),
            decreases self.blocks@.len() - i,
        {
            blocks.push(self.blocks[i]);
            proof {
                assert(blocks@ =~= self.blocks@.take(i + 1));
            }
            i += 1;
        }
        proof {
            assert(blocks@ =~= self.blocks@);
        }
        File { owner: self.owner.clone(), name: self.name.clone(), mode: self.mode, blocks }
    }
}

impl Default for File {
    /// A file without a name and without blocks, of mode 0, that belongs to
    /// the default owner.
    fn default() -> (file: File)
        ensures
            file@.owner.name == "user"@,
            file@.owner.group == "group"@,
            file@.name == Seq::<char>::empty(),
            file@.mode == 0,
            file@.blocks == Seq::<Block>::empty(),
    {
        File { owner: Owner::default(), name: String::new(), mode: 0, blocks: Vec::new() }
    }
}

impl File {
    /// Gives the file up.
    pub fn delete(self) {
    }

    /// Changes the file's name.
    pub fn rename(&mut self, new_name: &str)
        ensures
            final(self)@ == (FileView { name: new_name@, ..old(self)@ }),
    {
        self.name = new_name.to_owned();
    }

    /// Changes the file's mode.
    pub fn chmod(&mut self, new_mode: &u16)
        ensures
            final(self)@ == (FileView { mode: *new_mode, ..old(self)@ }),
    {
        self.mode = *new_mode;
    }

    /// Changes the file's owner.
    pub fn chown(&mut self, new_owner: &Owner)
        ensures
            final(self)@ == (FileView { owner: new_owner@, ..old(self)@ }),
    {
        self.owner = new_owner.clone();
    }

    /// The text that shows the file's blocks.
    pub fn show_blocks(&self) -> (text: String)
        ensures
            text@ == shown_blocks(self@),
    {
        let mut text = "\n\t\tБлоки файла '".to_owned();
        text.append(self.name.as_str());
        text.append("':\n\n");
        let ghost heading = text@;
        let mut i: usize = 0;
        while i < self.blocks.len()
            invariant
                i <= self.blocks@.len(),
                text@ == heading + blocks_text(self.blocks@.take(i as int)),
            decreases self.blocks@.len() - i,
        {
            let dump = self.blocks[i].render();
            text.append(dump.as_str());
            text.append("\n");
            proof {
                let next = self.blocks@.take(i + 1);
                assert(next.drop_last() =~= self.blocks@.take(i as int));
                assert(next.last() == self.blocks@[i as int]);
                assert(text@ =~= heading + blocks_text(next));
            }
            i += 1;
        }
        proof {
            assert(self.blocks@.take(i as int) =~= self.blocks@);
            assert(text@ =~= shown_blocks(self@));
        }
        text
    }

    /// Adds `block_count` blocks of random bytes to the end of the file.
    pub fn reserve(&mut self, block_count: usize)
        ensures
            final(self)@.blocks.len() == old(self)@.blocks.len() + block_count,
            final(self)@.blocks.take(old(self)@.blocks.len() as int) == old(self)@.blocks,
            final(self)@ == (FileView { blocks: final(self)@.blocks, ..old(self)@ }),
    {
        let mut i: usize = 0;
        while i < block_count
            invariant
                i <= block_count,
                self@.blocks.len() == old(self)@.blocks.len() + i,
                self@.blocks.take(old(self)@.blocks.len() as int) == old(self)@.blocks,
                self@ == (FileView { blocks: self@.blocks, ..old(self)@ }),
            decreases block_count - i,
        {
            self.blocks.push(Block::default());
            proof {
                assert(self@.blocks.take(old(self)@.blocks.len() as int) =~= old(self)@.blocks);
            }
            i += 1;
        }
    }
}

/// The dumps of `blocks`, each followed by an empty line.
pub open spec fn blocks_text(blocks: Seq<Block>) -> Seq<char>
    decreases blocks.len(),
{
    if blocks.len() == 0 {
        Seq::<char>::empty()
    } else {
        blocks_text(blocks.drop_last()) + block_text(blocks.last()@) + "\n"@
    }
}

/// What is shown of a file's blocks: a heading with the file's name, and the
/// dump of every block.
pub open spec fn shown_blocks(file: FileView) -> Seq<char> {
    "\n\t\tБлоки файла '"@ + file.name + "':\n\n"@ + blocks_text(file.blocks)
}

/// Whether one of `files` has the name `name`.
pub open spec fn has_name(files: Seq<FileView>, name: Seq<char>) -> bool {
    exists|i: int| 0 <= i < files.len() && #[trigger] files[i].name == name
}

/// A position in `files` of a file with the name `name`.
pub open spec fn position_of(files: Seq<FileView>, name: Seq<char>) -> int {
    choose|i: int| 0 <= i < files.len() && #[trigger] files[i].name == name
}

/// No two of `files` have the same name.
pub open spec fn names_differ(files: Seq<FileView>) -> bool {
    forall|i: int, j: int|
        0 <= i < files.len() && 0 <= j < files.len() && i != j ==> (#[trigger] files[i]).name != (
        #[trigger] files[j]).name
}

/// `files` with `file` in the place of the file of its name, or at the end if
/// there is none of that name.
pub open spec fn with_file(files: Seq<FileView>, file: FileView) -> Seq<FileView> {
    if has_name(files, file.name) {
        files.update(position_of(files, file.name), file)
    } else {
        files.push(file)
    }
}

/// Bytes that the blocks of `files` take up together.
pub open spec fn total_bytes(files: Seq<FileView>) -> nat
    decreases files.len(),
{
    if files.len() == 0 {
        0
    } else {
        total_bytes(files.drop_last()) + files.last().blocks.len() * (BLOCK_SIZE as nat)
    }
}

/// The first files of a table take up no more than the whole table.
pub proof fn lemma_total_bytes_of_prefix(files: Seq<FileView>, n: int)
    requires
        0 <= n <= files.len(),
    ensures
        total_bytes(files.take(n)) <= total_bytes(files),
    decreases files.len(),
{
    if n == files.len() {
        assert(files.take(n) =~= files);
    } else {
        assert(files.drop_last().take(n) =~= files.take(n));
        lemma_total_bytes_of_prefix(files.drop_last(), n);
    }
}

/// The files of `files` as plain values.
pub open spec fn views_of(files: Seq<File>) -> Seq<FileView> {
    files.map_values(|file: File| file@)
}

/// The files of a system, in the order in which their names first came.
#[derive(Debug)]
pub struct Filesystem {
    files: Vec<File>,
}

impl View for Filesystem {
    type V = Seq<FileView>;

    closed spec fn view(&self) -> Seq<FileView> {
        views_of(self.files@)
    }
}

impl Filesystem {
    /// No two files of the table have the same name.
    pub open spec fn wf(&self) -> bool {
        names_differ(self@)
    }

    /// A table without files.
    pub fn new() -> (fs: Filesystem)
        ensures
            fs.wf(),
            fs@ == Seq::<FileView>::empty(),
    {
        let fs = Filesystem { files: Vec::new() };
        proof {
            assert(fs@ =~= Seq::<FileView>::empty());
        }
        fs
    }

    /// Puts a copy of `file` into the table, in the place of the file of the
    /// same name if there is one.
    pub fn add_file(&mut self, file: &File)
        requires
            old(self).wf(),
        ensures
            final(self).wf(),
            final(self)@ == with_file(old(self)@, file@),
    {
        let mut i: usize = 0;
        while i < self.files.len()
            invariant
                i <= self.files@.len(),
                *self == *old(self),
                self.wf(),
                forall|j: int| 0 <= j < i ==> (#[trigger] self@[j]).name != file@.name,
            decreases self.files@.len() - i,
        {
            if self.files[i].name == file.name {
                proof {
                    assert(self@[i as int].name == file@.name);
                    assert(has_name(self@, file@.name));
                    assert(position_of(self@, file@.name) == i);
                }
                self.files[i] = file.clone();
                proof {
                    assert(self@ =~= old(self)@.update(i as int, file@));
                }
                return ;
            }
            i += 1;
        }
        self.files.push(file.clone());
        proof {
            assert(self@ =~= old(self)@.push(file@));
        }
    }

    /// Copies of all files of the table.
    pub fn get_files(&self) -> (files: Vec<File>)
        ensures
            views_of(files@) == self@,
    {
        let mut files: Vec<File> = Vec::new();
        let mut i: usize = 0;
        while i < self.files.len()
            invariant
                i <= self.files@.len(),
                files@.len() == i,
                self@.len() == self.files@.len(),
                views_of(files@) == self@.take(i as int),
            decreases self.files@.len() - i,
        {
            let ghost before = files@;
            let copy = self.files[i].clone();
            files.push(copy);
            proof {
                assert(files@ == before.push(copy));
                assert forall|j: int| 0 <= j < i + 1 implies views_of(files@)[j] == self@[j] by {
                    if j < i {
                        assert(files@[j] == before[j]);
                        assert(views_of(before)[j] == self@.take(i as int)[j]);
                    } else {
                        assert(files@[j] == copy);
                        assert(self@[j] == self.files@[j]@);
                    }
                }
                assert(views_of(files@) =~= self@.take(i + 1));
            }
            i += 1;
        }
        proof {
            assert(self@.take(i as int) =~= self@);
        }
        files
    }

    /// Bytes that the blocks of all files take up together.
    pub fn usage(&self) -> (bytes: usize)
        requires
            total_bytes(self@) <= usize::MAX,
        ensures
            bytes == total_bytes(self@),
    {
        let mut bytes: usize = 0;
        let mut i: usize = 0;
        while i < self.files.len()
            invariant
                i <= self.files@.len(),
                total_bytes(self@) <= usize::MAX,
                bytes == total_bytes(self@.take(i as int)),
            decreases self.files@.len() - i,
        {
            proof {
                lemma_total_bytes_of_prefix(self@, i + 1);
                assert(self@.take(i + 1).drop_last() =~= self@.take(i as int));
                assert(self@.take(i + 1).last() == self.files@[i as int]@);
            }
            bytes = bytes + self.files[i].blocks.len() * BLOCK_SIZE;
            i += 1;
        }
        proof {
            assert(self@.take(i as int) =~= self@);
        }
        bytes
    }
}

impl Default for Filesystem {
    /// A table without files.
    fn default() -> (fs: Filesystem)
        ensures
            fs.wf(),
            fs@ == Seq::<FileView>::empty(),
    {
        Filesystem::new()
    }
}

impl Clone for Filesystem {
    fn clone(&self) -> (copy: Filesystem)
        ensures
            copy@ == self@,
    {
        Filesystem { files: self.get_files() }
    }
}

} // verus!
