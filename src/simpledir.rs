//! One directory entry as seen by a single `stat`, and its canonical text.

use vstd::prelude::*;
use vstd::string::*;

verus! {

/// File-type bits of a POSIX mode (Linux values).
pub const S_IFLNK: u32 = 0o120000;
pub const S_IFREG: u32 = 0o100000;
pub const S_IFBLK: u32 = 0o060000;
pub const S_IFDIR: u32 = 0o040000;
pub const S_IFCHR: u32 = 0o020000;
pub const S_IFIFO: u32 = 0o010000;

/// Permission bits of a POSIX mode.
pub const S_IRUSR: u32 = 0o400;
pub const S_IWUSR: u32 = 0o200;
pub const S_IXUSR: u32 = 0o100;
pub const S_IRGRP: u32 = 0o040;
pub const S_IWGRP: u32 = 0o020;
pub const S_IXGRP: u32 = 0o010;
pub const S_IROTH: u32 = 0o004;
pub const S_IWOTH: u32 = 0o002;
pub const S_IXOTH: u32 = 0o001;

/// True when every bit of `mask` is set in `mode`.
pub open spec fn has_bits(mode: u32, mask: u32) -> bool {
    mode & mask == mask
}

/// The one class of a filesystem entry.
#[derive(Clone, Copy, Debug, PartialEq, Eq, Structural)]
pub enum EntryKind {
    Symlink,
    Regular,
    Block,
    Directory,
    Fifo,
    Char,
    Unknown,
}

/// The class of a mode, decided once from its type bits by the fixed
/// priority symlink > regular > block > directory > fifo > char > unknown.
pub open spec fn kind_of(mode: u32) -> EntryKind {
    if has_bits(mode, S_IFLNK) {
        EntryKind::Symlink
    } else if has_bits(mode, S_IFREG) {
        EntryKind::Regular
    } else if has_bits(mode, S_IFBLK) {
        EntryKind::Block
    } else if has_bits(mode, S_IFDIR) {
        EntryKind::Directory
    } else if has_bits(mode, S_IFIFO) {
        EntryKind::Fifo
    } else if has_bits(mode, S_IFCHR) {
        EntryKind::Char
    } else {
        EntryKind::Unknown
    }
}

/// The one-character code of a class.
pub open spec fn kind_char(k: EntryKind) -> char {
    match k {
        EntryKind::Symlink => 's',
        EntryKind::Regular => '-',
        EntryKind::Block => 'b',
        EntryKind::Directory => 'd',
        EntryKind::Fifo => 'p',
        EntryKind::Char => 'c',
        EntryKind::Unknown => '?',
    }
}

/// The one-character type code of a mode.
pub open spec fn type_char(mode: u32) -> char {
    kind_char(kind_of(mode))
}

/// One `rwx` triplet: each letter or `-`, independently by its bit.
pub open spec fn rwx_chars(mode: u32, rm: u32, wm: u32, xm: u32) -> Seq<char> {
    seq![
        if has_bits(mode, rm) { 'r' } else { '-' },
        if has_bits(mode, wm) { 'w' } else { '-' },
        if has_bits(mode, xm) { 'x' } else { '-' },
    ]
}

/// The ten-character permission string of a mode.
pub open spec fn permission_string(mode: u32) -> Seq<char> {
    seq![type_char(mode)] + rwx_chars(mode, S_IRUSR, S_IWUSR, S_IXUSR) + rwx_chars(
        mode,
        S_IRGRP,
        S_IWGRP,
        S_IXGRP,
    ) + rwx_chars(mode, S_IROTH, S_IWOTH, S_IXOTH)
}

/// The character of a decimal digit.
pub open spec fn digit_char(d: nat) -> char {
    if d == 0 {
        '0'
    } else if d == 1 {
        '1'
    } else if d == 2 {
        '2'
    } else if d == 3 {
        '3'
    } else if d == 4 {
        '4'
    } else if d == 5 {
        '5'
    } else if d == 6 {
        '6'
    } else if d == 7 {
        '7'
    } else if d == 8 {
        '8'
    } else {
        '9'
    }
}

/// The decimal digits of `n`, without leading zeros.
pub open spec fn decimal(n: nat) -> Seq<char>
    decreases n,
{
    if n < 10 {
        seq![digit_char(n)]
    } else {
        decimal(n / 10).push(digit_char(n % 10))
    }
}

/// `s` right-aligned in a field of `w` characters (never truncated).
pub open spec fn pad_left(s: Seq<char>, w: nat) -> Seq<char> {
    if s.len() >= w {
        s
    } else {
        Seq::new((w - s.len()) as nat, |i: int| ' ') + s
    }
}

/// `s` left-aligned in a field of `w` characters (never truncated).
pub open spec fn pad_right(s: Seq<char>, w: nat) -> Seq<char> {
    if s.len() >= w {
        s
    } else {
        s + Seq::new((w - s.len()) as nat, |i: int| ' ')
    }
}

/// What the library knows of a directory entry.
pub ghost struct EntryView {
    pub name: Seq<char>,
    pub len: u64,
    pub mode: u32,
    pub uid: u32,
    pub gid: u32,
}

/// A name is hidden when it starts with a dot.
pub open spec fn is_hidden_name(name: Seq<char>) -> bool {
    name.len() > 0 && name[0] == '.'
}

/// A regular file: the entry's one class is regular.
pub open spec fn is_regular_mode(mode: u32) -> bool {
    kind_of(mode) == EntryKind::Regular
}

/// A directory: the entry's one class is directory.
pub open spec fn is_dir_mode(mode: u32) -> bool {
    kind_of(mode) == EntryKind::Directory
}

/// Every mode has one class: it is a regular file exactly when its
/// permission string shows `-`, a directory exactly when it shows `d`, and
/// never both.
pub proof fn lemma_one_class(mode: u32)
    ensures
        is_regular_mode(mode) <==> permission_string(mode)[0] == '-',
        is_dir_mode(mode) <==> permission_string(mode)[0] == 'd',
        !(is_regular_mode(mode) && is_dir_mode(mode)),
{
}

/// The entry's description without any content hash:
/// permissions, uid and gid in five columns each, size in ten, a space, the name.
pub open spec fn entry_text(e: EntryView) -> Seq<char> {
    permission_string(e.mode) + pad_left(decimal(e.uid as nat), 5) + pad_left(
        decimal(e.gid as nat),
        5,
    ) + pad_left(decimal(e.len as nat), 10) + seq![' '] + e.name
}

/// `name` as a child of `parent`: joined by one `/` unless `parent` is empty
/// or already ends with one.
pub open spec fn child_path(parent: Seq<char>, name: Seq<char>) -> Seq<char> {
    if parent.len() == 0 {
        name
    } else if parent.last() == '/' {
        parent + name
    } else {
        parent + seq!['/'] + name
    }
}

pub struct SimpleDir {
    fname: String,
    len: u64,
    mode: u32,
    uid: u32,
    gid: u32,
}

impl View for SimpleDir {
    type V = EntryView;

    closed spec fn view(&self) -> EntryView {
        EntryView {
            name: self.fname@,
            len: self.len,
            mode: self.mode,
            uid: self.uid,
            gid: self.gid,
        }
    }
}

fn digit_str(d: u64) -> (r: &'static str)
    requires
        d < 10,
    ensures
        r@ == seq![digit_char(d as nat)],
{
    proof {
        reveal_strlit("0");
        reveal_strlit("1");
        reveal_strlit("2");
        reveal_strlit("3");
        reveal_strlit("4");
        reveal_strlit("5");
        reveal_strlit("6");
        reveal_strlit("7");
        reveal_strlit("8");
        reveal_strlit("9");
    }
    if d == 0 {
        "0"
    } else if d == 1 {
        "1"
    } else if d == 2 {
        "2"
    } else if d == 3 {
        "3"
    } else if d == 4 {
        "4"
    } else if d == 5 {
        "5"
    } else if d == 6 {
        "6"
    } else if d == 7 {
        "7"
    } else if d == 8 {
        "8"
    } else {
        "9"
    }
}

fn decimal_len(n: u64) -> (r: u64)
    ensures
        r == decimal(n as nat).len(),
        r <= n + 1,
    decreases n,
{
    if n < 10 {
        1
    } else {
        1 + decimal_len(n / 10)
    }
}

fn push_decimal(st: &mut String, n: u64)
    ensures
        final(st)@ == old(st)@ + decimal(n as nat),
    decreases n,
{
    if n >= 10 {
        push_decimal(st, n / 10);
    }
    st.append(digit_str(n % 10));
    proof {
        if n >= 10 {
            assert(decimal(n as nat) == decimal((n / 10) as nat).push(digit_char((n % 10) as nat)));
        }
    }
    assert(final(st)@ =~= old(st)@ + decimal(n as nat));
}

fn push_spaces(st: &mut String, k: usize)
    ensures
        final(st)@ == old(st)@ + Seq::new(k as nat, |i: int| ' '),
{
    let mut i: usize = 0;
    while i < k
        invariant
            i <= k,
            st@ == old(st)@ + Seq::new(i as nat, |j: int| ' '),
        decreases k - i,
    {
        proof {
            reveal_strlit(" ");
        }
        st.append(" ");
        i = i + 1;
        assert(st@ =~= old(st)@ + Seq::new(i as nat, |j: int| ' '));
    }
}

/// Appends `n` in decimal, right-aligned in `width` columns.
pub(crate) fn push_padded_decimal(st: &mut String, n: u64, width: usize)
    ensures
        final(st)@ == old(st)@ + pad_left(decimal(n as nat), width as nat),
{
    let l = decimal_len(n);
    if l < width as u64 {
        push_spaces(st, width - l as usize);
    }
    push_decimal(st, n);
    assert(final(st)@ =~= old(st)@ + pad_left(decimal(n as nat), width as nat));
}

/// Appends `s`, left-aligned in `width` columns.
pub(crate) fn push_padded_str(st: &mut String, s: &str, width: usize)
    ensures
        final(st)@ == old(st)@ + pad_right(s@, width as nat),
{
    st.append(s);
    let l = s.unicode_len();
    if l < width {
        push_spaces(st, width - l);
    }
    assert(final(st)@ =~= old(st)@ + pad_right(s@, width as nat));
}

fn push_rwx(st: &mut String, mode: u32, rm: u32, wm: u32, xm: u32)
    ensures
        final(st)@ == old(st)@ + rwx_chars(mode, rm, wm, xm),
{
    proof {
        reveal_strlit("r");
        reveal_strlit("w");
        reveal_strlit("x");
        reveal_strlit("-");
    }
    if mode & rm == rm {
        st.append("r");
    } else {
        st.append("-");
    }
    if mode & wm == wm {
        st.append("w");
    } else {
        st.append("-");
    }
    if mode & xm == xm {
        st.append("x");
    } else {
        st.append("-");
    }
    assert(final(st)@ =~= old(st)@ + rwx_chars(mode, rm, wm, xm));
}

/// The class of a mode (see `kind_of`).
pub fn classify(mode: u32) -> (r: EntryKind)
    ensures
        r == kind_of(mode),
{
    if mode & S_IFLNK == S_IFLNK {
        EntryKind::Symlink
    } else if mode & S_IFREG == S_IFREG {
        EntryKind::Regular
    } else if mode & S_IFBLK == S_IFBLK {
        EntryKind::Block
    } else if mode & S_IFDIR == S_IFDIR {
        EntryKind::Directory
    } else if mode & S_IFIFO == S_IFIFO {
        EntryKind::Fifo
    } else if mode & S_IFCHR == S_IFCHR {
        EntryKind::Char
    } else {
        EntryKind::Unknown
    }
}

fn type_str(mode: u32) -> (r: &'static str)
    ensures
        r@ == seq![type_char(mode)],
{
    proof {
        reveal_strlit("s");
        reveal_strlit("-");
        reveal_strlit("b");
        reveal_strlit("d");
        reveal_strlit("p");
        reveal_strlit("c");
        reveal_strlit("?");
    }
    match classify(mode) {
        EntryKind::Symlink => "s",
        EntryKind::Regular => "-",
        EntryKind::Block => "b",
        EntryKind::Directory => "d",
        EntryKind::Fifo => "p",
        EntryKind::Char => "c",
        EntryKind::Unknown => "?",
    }
}

impl SimpleDir {
    /// An entry from one `stat`; a name never holds a path separator.
    pub fn new(fname: String, len: u64, mode: u32, uid: u32, gid: u32) -> (r: SimpleDir)
        requires
            !fname@.contains('/'),
        ensures
            r@ == (EntryView { name: fname@, len, mode, uid, gid }),
    {
        SimpleDir { fname, len, mode, uid, gid }
    }

    pub fn fname(&self) -> (r: &String)
        ensures
            r@ == self@.name,
    {
        &self.fname
    }

    pub fn len(&self) -> (r: u64)
        ensures
            r == self@.len,
    {
        self.len
    }

    pub fn mode(&self) -> (r: &u32)
        ensures
            *r == self@.mode,
    {
        &self.mode
    }

    pub fn uid(&self) -> (r: &u32)
        ensures
            *r == self@.uid,
    {
        &self.uid
    }

    pub fn gid(&self) -> (r: &u32)
        ensures
            *r == self@.gid,
    {
        &self.gid
    }

    /// The ten-character permission string of any mode.
    pub fn mode_as_string(mode: &u32) -> (r: String)
        ensures
            r@ == permission_string(*mode),
            r@.len() == 10,
    {
        let mut st = String::new();
        st.append(type_str(*mode));
        push_rwx(&mut st, *mode, S_IRUSR, S_IWUSR, S_IXUSR);
        push_rwx(&mut st, *mode, S_IRGRP, S_IWGRP, S_IXGRP);
        push_rwx(&mut st, *mode, S_IROTH, S_IWOTH, S_IXOTH);
        assert(st@ =~= permission_string(*mode));
        st
    }

    /// The entry's canonical description (without content hash).
    pub fn dump_as_string(&self) -> (r: String)
        ensures
            r@ == entry_text(self@),
    {
        proof {
            reveal_strlit(" ");
        }
        let mut st = SimpleDir::mode_as_string(&self.mode);
        push_padded_decimal(&mut st, self.uid as u64, 5);
        push_padded_decimal(&mut st, self.gid as u64, 5);
        push_padded_decimal(&mut st, self.len, 10);
        st.append(" ");
        st.append(self.fname.as_str());
        assert(st@ =~= entry_text(self@));
        st
    }

    pub fn is_regular_file(&self) -> (r: bool)
        ensures
            r == is_regular_mode(self@.mode),
    {
        classify(self.mode) == EntryKind::Regular
    }

    pub fn is_hidden(&self) -> (r: bool)
        ensures
            r == is_hidden_name(self@.name),
    {
        let s = self.fname.as_str();
        !s.is_empty() && s.get_char(0) == '.'
    }

    pub fn is_dir(&self) -> (r: bool)
        ensures
            r == is_dir_mode(self@.mode),
    {
        classify(self.mode) == EntryKind::Directory
    }

    /// The path of this entry under `path`.
    pub fn append_fname_to(&self, path: &str) -> (r: String)
        ensures
            r@ == child_path(path@, self@.name),
    {
        proof {
            reveal_strlit("/");
        }
        let mut st = String::from_str(path);
        let n = path.unicode_len();
        if n > 0 && path.get_char(n - 1) != '/' {
            st.append("/");
        }
        st.append(self.fname.as_str());
        assert(st@ =~= child_path(path@, self@.name));
        st
    }
}

} // verus!
