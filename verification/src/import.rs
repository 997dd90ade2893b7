use crate::lexer::{tokenize_spec, LexerError};
use crate::parser::{parse_spec, ParserError};
use crate::eval::common::{de_bruijn, de_bruijn_spec, names_of, EvalError, EvalErrorView};
use crate::lexer::tokenize;
use crate::parser::parse;
use crate::syntax::desugar::{agrees_import, desugar, desugar_spec, dir_view};
use crate::syntax::{Expr, ExprView, Term, TermView};
use crate::text::{chars_of, push_char, push_str, utf8_len, utf8_len_at_most};
use vstd::prelude::*;

verus! {

/// Where an imported module was found.
pub enum ResolutionView {
    Builtin(Seq<char>),
    User(Seq<char>),
}

/// Where an imported module was found: a file of the built-in library, or
/// a file next to the program that imports it.
#[derive(Debug)]
pub enum Resolution {
    Builtin(String),
    User(String),
}

impl View for Resolution {
    type V = ResolutionView;

    open spec fn view(&self) -> ResolutionView {
        match self {
            Resolution::Builtin(p) => ResolutionView::Builtin(p@),
            Resolution::User(p) => ResolutionView::User(p@),
        }
    }
}

impl ResolutionView {
    pub open spec fn path(self) -> Seq<char> {
        match self {
            ResolutionView::Builtin(p) => p,
            ResolutionView::User(p) => p,
        }
    }

    /// `path (builtin)` for a library module, the bare path otherwise.
    pub open spec fn display(self) -> Seq<char> {
        match self {
            ResolutionView::Builtin(p) => p + " (builtin)"@,
            ResolutionView::User(p) => p,
        }
    }
}

impl Clone for Resolution {
    fn clone(&self) -> (r: Self)
        ensures
            r@ == self@,
    {
        match self {
            Resolution::Builtin(p) => Resolution::Builtin(p.clone()),
            Resolution::User(p) => Resolution::User(p.clone()),
        }
    }
}

impl Resolution {
    /// The path of the module's file.
    pub fn path(&self) -> (p: &String)
        ensures
            p@ == self@.path(),
    {
        match self {
            Resolution::Builtin(p) => p,
            Resolution::User(p) => p,
        }
    }

    pub fn to_display_string(&self) -> (s: String)
        ensures
            s@ == self@.display(),
    {
        match self {
            Resolution::Builtin(p) => {
                let mut s = p.clone();
                push_str(&mut s, " (builtin)");
                s
            },
            Resolution::User(p) => p.clone(),
        }
    }
}

/// Whether two resolutions name the same module file.
pub fn same_resolution(a: &Resolution, b: &Resolution) -> (r: bool)
    ensures
        r == (a@ == b@),
{
    match (a, b) {
        (Resolution::Builtin(x), Resolution::Builtin(y)) => *x == *y,
        (Resolution::User(x), Resolution::User(y)) => *x == *y,
        _ => false,
    }
}


/// The modules of an import cycle, from the first one that is imported
/// again to that import.
#[derive(Debug)]
pub struct Cycle(pub Vec<Resolution>);

/// The entries of `c` joined by ` -> `.
pub open spec fn cycle_single_line(c: Seq<ResolutionView>) -> Seq<char>
    decreases c.len(),
{
    if c.len() == 0 {
        Seq::empty()
    } else if c.len() == 1 {
        c[0].display()
    } else {
        cycle_single_line(c.drop_last()) + " -> "@ + c.last().display()
    }
}

/// The entries of `c`, each on a line of its own, every line after the
/// first starting with `-> `.
pub open spec fn cycle_multiline(c: Seq<ResolutionView>) -> Seq<char>
    decreases c.len(),
{
    if c.len() == 0 {
        Seq::empty()
    } else {
        cycle_multiline(c.drop_last()) + (if c.len() == 1 {
            "\n   "@
        } else {
            "\n-> "@
        }) + c.last().display()
    }
}

/// The longest single-line rendering of a cycle, in bytes.
pub const CYCLE_LINE_LIMIT: usize = 60;

/// A cycle on one line when that line has at most sixty bytes, else over
/// several lines.
pub open spec fn cycle_display(c: Seq<ResolutionView>) -> Seq<char> {
    if utf8_len(cycle_single_line(c)) <= CYCLE_LINE_LIMIT {
        cycle_single_line(c)
    } else {
        cycle_multiline(c)
    }
}

pub open spec fn resolutions_view(v: Seq<Resolution>) -> Seq<ResolutionView> {
    v.map_values(|r: Resolution| r@)
}

impl View for Cycle {
    type V = Seq<ResolutionView>;

    open spec fn view(&self) -> Seq<ResolutionView> {
        resolutions_view(self.0@)
    }
}

impl Clone for Cycle {
    fn clone(&self) -> (r: Self)
        ensures
            r@ == self@,
    {
        let mut v: Vec<Resolution> = Vec::new();
        let mut i: usize = 0;
        while i < self.0.len()
            invariant
                i <= self.0@.len(),
                v@.len() == i,
                forall|j: int| 0 <= j < i ==> v@[j]@ == self.0@[j]@,
            decreases self.0@.len() - i,
        {
            let r = self.0[i].clone();
            v.push(r);
            i = i + 1;
        }
        proof {
            assert(resolutions_view(v@) =~= resolutions_view(self.0@));
        }
        Cycle(v)
    }
}

impl Cycle {
    fn to_single_line_string(&self) -> (s: String)
        ensures
            s@ == cycle_single_line(self@),
    {
        let mut s = String::new();
        let mut i: usize = 0;
        while i < self.0.len()
            invariant
                i <= self.0@.len(),
                s@ == cycle_single_line(self@.take(i as int)),
            decreases self.0@.len() - i,
        {
            let ghost pre = self@.take(i + 1);
            proof {
                assert(pre.drop_last() =~= self@.take(i as int));
                assert(pre.last() == self.0@[i as int]@);
            }
            if i > 0 {
                push_str(&mut s, " -> ");
            }
            let r = self.0[i].to_display_string();
            push_str(&mut s, r.as_str());
            i = i + 1;
        }
        proof {
            assert(self@.take(i as int) =~= self@);
        }
        s
    }

    fn to_multiline_string(&self) -> (s: String)
        ensures
            s@ == cycle_multiline(self@),
    {
        let mut s = String::new();
        let mut i: usize = 0;
        while i < self.0.len()
            invariant
                i <= self.0@.len(),
                s@ == cycle_multiline(self@.take(i as int)),
            decreases self.0@.len() - i,
        {
            let ghost pre = self@.take(i + 1);
            proof {
                assert(pre.drop_last() =~= self@.take(i as int));
                assert(pre.last() == self.0@[i as int]@);
            }
            if i == 0 {
                push_str(&mut s, "\n   ");
            } else {
                push_str(&mut s, "\n-> ");
            }
            let r = self.0[i].to_display_string();
            push_str(&mut s, r.as_str());
            i = i + 1;
        }
        proof {
            assert(self@.take(i as int) =~= self@);
        }
        s
    }

    /// The cycle as it is shown in an error message.
    pub fn to_display_string(&self) -> (s: String)
        ensures
            s@ == cycle_display(self@),
    {
        let line = self.to_single_line_string();
        if utf8_len_at_most(line.as_str(), CYCLE_LINE_LIMIT) {
            line
        } else {
            self.to_multiline_string()
        }
    }
}

/// A failed import.
pub enum ImportErrorView {
    Io(Seq<char>),
    Tokenize(nat, Seq<char>),
    Parse(nat, Seq<char>),
    CircularDependency(Seq<ResolutionView>),
}

/// Why an import failed: no module of that name (with the path that was
/// looked for), a module that does not tokenize or parse (with its path),
/// or a module that imports itself through others.
#[derive(Debug)]
pub enum ImportError {
    Io(String),
    Tokenize(LexerError, String),
    Parse(ParserError, String),
    CircularDependency(Cycle),
}

impl View for ImportError {
    type V = ImportErrorView;

    open spec fn view(&self) -> ImportErrorView {
        match self {
            ImportError::Io(p) => ImportErrorView::Io(p@),
            ImportError::Tokenize(e, p) => ImportErrorView::Tokenize(e.position as nat, p@),
            ImportError::Parse(e, p) => ImportErrorView::Parse(e.position as nat, p@),
            ImportError::CircularDependency(c) => ImportErrorView::CircularDependency(c@),
        }
    }
}

impl ImportErrorView {
    pub open spec fn display(self) -> Seq<char> {
        match self {
            ImportErrorView::Io(p) => "Failed to read "@ + p,
            ImportErrorView::Tokenize(_, p) => "Failed to tokenize "@ + p,
            ImportErrorView::Parse(_, p) => "Failed to parse "@ + p,
            ImportErrorView::CircularDependency(c) => "Circular dependency detected: "@
                + cycle_display(c),
        }
    }
}

impl ImportError {
    /// The error message.
    pub fn to_display_string(&self) -> (s: String)
        ensures
            s@ == self@.display(),
    {
        let mut s = String::new();
        match self {
            ImportError::Io(p) => {
                push_str(&mut s, "Failed to read ");
                push_str(&mut s, p.as_str());
            },
            ImportError::Tokenize(_, p) => {
                push_str(&mut s, "Failed to tokenize ");
                push_str(&mut s, p.as_str());
            },
            ImportError::Parse(_, p) => {
                push_str(&mut s, "Failed to parse ");
                push_str(&mut s, p.as_str());
            },
            ImportError::CircularDependency(c) => {
                push_str(&mut s, "Circular dependency detected: ");
                let d = c.to_display_string();
                push_str(&mut s, d.as_str());
            },
        }
        s
    }
}


/// The modules of the built-in library, by name, in the order of their
/// names: Church encodings of combinators, booleans, pairs and arithmetic.
pub open spec fn library() -> Seq<(Seq<char>, Seq<char>)> {
    seq![
        ("I"@, "\\x. x"@),
        ("K"@, "\\x y. x"@),
        ("S"@, "\\x y z. x z (y z)"@),
        ("Y"@, "\\f. (\\x. f (x x)) (\\x. f (x x))"@),
        ("add"@, "\\m n f x. m f (n f x)"@),
        ("and"@, "\\p q. p q p"@),
        ("car"@, "\\p. p (\\a b. a)"@),
        ("cdr"@, "\\p. p (\\a b. b)"@),
        ("false"@, "\\x y. y"@),
        ("if"@, "\\p a b. p a b"@),
        ("iszero"@, "\\n. n (\\u a b. b) (\\a b. a)"@),
        ("mult"@, "\\m n f. m (n f)"@),
        ("not"@, "\\p x y. p y x"@),
        ("or"@, "\\p q. p p q"@),
        ("pair"@, "\\a b f. f a b"@),
        ("pred"@, "\\n f x. n (\\g h. h (g f)) (\\u. x) (\\u. u)"@),
        ("sub"@, "import pred in \\m n. n pred m"@),
        ("succ"@, "\\n f x. f (n f x)"@),
        ("true"@, "\\x y. x"@),
    ]
}

pub open spec fn pairs_view(v: Seq<(String, String)>) -> Seq<(Seq<char>, Seq<char>)> {
    v.map_values(|p: (String, String)| (p.0@, p.1@))
}

/// The built-in library as (name, source) pairs.
fn library_entries() -> (v: Vec<(String, String)>)
    ensures
        pairs_view(v@) == library(),
{
    let mut v: Vec<(String, String)> = Vec::new();
    v.push(("I".to_owned(), "\\x. x".to_owned()));
    v.push(("K".to_owned(), "\\x y. x".to_owned()));
    v.push(("S".to_owned(), "\\x y z. x z (y z)".to_owned()));
    v.push(("Y".to_owned(), "\\f. (\\x. f (x x)) (\\x. f (x x))".to_owned()));
    v.push(("add".to_owned(), "\\m n f x. m f (n f x)".to_owned()));
    v.push(("and".to_owned(), "\\p q. p q p".to_owned()));
    v.push(("car".to_owned(), "\\p. p (\\a b. a)".to_owned()));
    v.push(("cdr".to_owned(), "\\p. p (\\a b. b)".to_owned()));
    v.push(("false".to_owned(), "\\x y. y".to_owned()));
    v.push(("if".to_owned(), "\\p a b. p a b".to_owned()));
    v.push(("iszero".to_owned(), "\\n. n (\\u a b. b) (\\a b. a)".to_owned()));
    v.push(("mult".to_owned(), "\\m n f. m (n f)".to_owned()));
    v.push(("not".to_owned(), "\\p x y. p y x".to_owned()));
    v.push(("or".to_owned(), "\\p q. p p q".to_owned()));
    v.push(("pair".to_owned(), "\\a b f. f a b".to_owned()));
    v.push(("pred".to_owned(), "\\n f x. n (\\g h. h (g f)) (\\u. x) (\\u. u)".to_owned()));
    v.push(("sub".to_owned(), "import pred in \\m n. n pred m".to_owned()));
    v.push(("succ".to_owned(), "\\n f x. f (n f x)".to_owned()));
    v.push(("true".to_owned(), "\\x y. x".to_owned()));
    proof {
        assert(pairs_view(v@) =~= library());
    }
    v
}

/// The value of the first entry whose key is `key`.
pub open spec fn entry_lookup(entries: Seq<(Seq<char>, Seq<char>)>, key: Seq<char>) -> Option<
    Seq<char>,
>
    decreases entries.len(),
{
    if entries.len() == 0 {
        None
    } else if entries[0].0 == key {
        Some(entries[0].1)
    } else {
        entry_lookup(entries.drop_first(), key)
    }
}

pub proof fn lemma_entry_lookup_found(entries: Seq<(Seq<char>, Seq<char>)>, key: Seq<char>)
    requires
        entry_lookup(entries, key) is Some,
    ensures
        exists|i: int| 0 <= i < entries.len() && #[trigger] entries[i].0 == key,
    decreases entries.len(),
{
    if entries[0].0 != key {
        lemma_entry_lookup_found(entries.drop_first(), key);
        let i = choose|i: int| 0 <= i < entries.drop_first().len() && #[trigger] entries.drop_first()[i].0 == key;
        assert(entries[i + 1].0 == key);
    }
}

/// The value of the first entry of `entries` whose key is `key`.
fn find_entry(entries: &Vec<(String, String)>, key: &String) -> (r: Option<String>)
    ensures
        r matches Some(s) ==> entry_lookup(pairs_view(entries@), key@) == Some(s@),
        r is None ==> entry_lookup(pairs_view(entries@), key@) is None,
{
    let mut i: usize = 0;
    assert(pairs_view(entries@).skip(0) =~= pairs_view(entries@));
    while i < entries.len()
        invariant
            i <= entries@.len(),
            entry_lookup(pairs_view(entries@), key@) == entry_lookup(
                pairs_view(entries@).skip(i as int),
                key@,
            ),
        decreases entries@.len() - i,
    {
        let ghost rest = pairs_view(entries@).skip(i as int);
        proof {
            assert(rest[0] == (entries@[i as int].0@, entries@[i as int].1@));
            assert(rest.drop_first() =~= pairs_view(entries@).skip(i + 1));
        }
        if entries[i].0 == *key {
            return Some(entries[i].1.clone());
        }
        i = i + 1;
    }
    None
}

/// The library as (file name, source) pairs.
pub open spec fn library_files() -> Seq<(Seq<char>, Seq<char>)> {
    library().map_values(|e: (Seq<char>, Seq<char>)| (module_file(e.0), e.1))
}

/// `s` without its leading slashes: a library path is taken as relative.
pub open spec fn strip_slashes(s: Seq<char>) -> Seq<char>
    decreases s.len(),
{
    if s.len() > 0 && s[0] == '/' {
        strip_slashes(s.drop_first())
    } else {
        s
    }
}

/// The source of the library file at `path`.
pub open spec fn builtin_source(path: Seq<char>) -> Option<Seq<char>> {
    entry_lookup(library_files(), strip_slashes(path))
}

fn strip_slashes_exec(src: &str) -> (s: String)
    ensures
        s@ == strip_slashes(src@),
{
    let v = chars_of(src);
    let mut i: usize = 0;
    assert(v@.skip(0) =~= v@);
    while i < v.len()
        invariant
            i <= v@.len(),
            v@ == src@,
            strip_slashes(src@) == strip_slashes(v@.skip(i as int)),
        ensures
            i <= v@.len(),
            strip_slashes(src@) == strip_slashes(v@.skip(i as int)),
            i == v@.len() || v@[i as int] != '/',
        decreases v@.len() - i,
    {
        if v[i] != '/' {
            break;
        }
        proof {
            assert(v@.skip(i as int).drop_first() =~= v@.skip(i + 1));
        }
        i = i + 1;
    }
    let mut s = String::new();
    let start = i;
    while i < v.len()
        invariant
            start <= i <= v@.len(),
            s@ == v@.subrange(start as int, i as int),
        decreases v@.len() - i,
    {
        push_char(&mut s, v[i]);
        proof {
            assert(s@ =~= v@.subrange(start as int, i + 1));
        }
        i = i + 1;
    }
    proof {
        assert(v@.skip(start as int) =~= v@.subrange(start as int, i as int));
    }
    s
}

/// The library as (file name, source) pairs.
fn library_file_entries() -> (v: Vec<(String, String)>)
    ensures
        pairs_view(v@) == library_files(),
{
    let lib = library_entries();
    let mut v: Vec<(String, String)> = Vec::new();
    let mut i: usize = 0;
    while i < lib.len()
        invariant
            i <= lib@.len(),
            pairs_view(lib@) == library(),
            v@.len() == i,
            forall|j: int| 0 <= j < i ==> (#[trigger] v@[j]).0@ == module_file(lib@[j].0@)
                && v@[j].1@ == lib@[j].1@,
        decreases lib@.len() - i,
    {
        let file = module_file_exec(lib[i].0.as_str());
        v.push((file, lib[i].1.clone()));
        i = i + 1;
    }
    proof {
        assert forall|j: int| 0 <= j < i implies pairs_view(v@)[j] == library_files()[j] by {
            assert(pairs_view(lib@)[j] == library()[j]);
        }
        assert(pairs_view(v@) =~= library_files());
    }
    v
}

/// The source of the library file at `file`, or the error for a file that
/// the library does not hold.
fn get_builtin_module_src(file: &str) -> (r: Result<String, ImportError>)
    ensures
        match builtin_source(file@) {
            Some(src) => r matches Ok(s) && s@ == src,
            None => r matches Err(ImportError::Io(p)) && p@ == strip_slashes(file@),
        },
{
    let path = strip_slashes_exec(file);
    let lib = library_file_entries();
    match find_entry(&lib, &path) {
        Some(src) => Ok(src),
        None => Err(ImportError::Io(path)),
    }
}

/// The file name of module `name`: the name with `.lil` appended.
pub open spec fn module_file(name: Seq<char>) -> Seq<char> {
    name + ".lil"@
}

/// `file` under directory `dir`.
pub open spec fn join_path(dir: Seq<char>, file: Seq<char>) -> Seq<char> {
    if file.len() > 0 && file[0] == '/' {
        file
    } else if dir.len() == 0 {
        file
    } else if dir.last() == '/' {
        dir + file
    } else {
        dir + seq!['/'] + file
    }
}

fn module_file_exec(name: &str) -> (s: String)
    ensures
        s@ == module_file(name@),
{
    let mut s = name.to_owned();
    push_str(&mut s, ".lil");
    s
}

fn join_path_exec(dir: &str, file: &str) -> (s: String)
    ensures
        s@ == join_path(dir@, file@),
{
    let f = chars_of(file);
    if f.len() > 0 && f[0] == '/' {
        return file.to_owned();
    }
    let d = chars_of(dir);
    let mut s = dir.to_owned();
    if d.len() > 0 && d[d.len() - 1] != '/' {
        push_str(&mut s, "/");
        proof {
            reveal_strlit("/");
        }
    }
    push_str(&mut s, file);
    s
}

/// Every module file that an import can resolve to: each library module,
/// then each user file.
pub open spec fn universe(files: Seq<(Seq<char>, Seq<char>)>) -> Seq<ResolutionView> {
    library_files().map_values(|e: (Seq<char>, Seq<char>)| ResolutionView::Builtin(e.0))
        + files.map_values(|e: (Seq<char>, Seq<char>)| ResolutionView::User(e.0))
}

/// The modules being imported, outermost first: no module twice, each one
/// a file that an import can resolve to.
pub open spec fn stack_ok(files: Seq<(Seq<char>, Seq<char>)>, stack: Seq<ResolutionView>) -> bool {
    &&& stack.no_duplicates()
    &&& forall|i: int| 0 <= i < stack.len() ==> universe(files).contains(#[trigger] stack[i])
}

/// How many more imports can be nested.
pub open spec fn import_measure(files: Seq<(Seq<char>, Seq<char>)>, stack: Seq<ResolutionView>) -> nat {
    if stack.len() <= universe(files).len() {
        (universe(files).len() - stack.len()) as nat
    } else {
        0
    }
}

/// A module that is not being imported yet can be pushed, and there is room
/// for it.
pub proof fn lemma_push_ok(
    files: Seq<(Seq<char>, Seq<char>)>,
    stack: Seq<ResolutionView>,
    r: ResolutionView,
)
    requires
        stack_ok(files, stack),
        !stack.contains(r),
        universe(files).contains(r),
    ensures
        stack_ok(files, stack.push(r)),
        stack.len() + 1 <= universe(files).len(),
{
    broadcast use vstd::seq_lib::seq_to_set_is_finite;

    let s2 = stack.push(r);
    let u = universe(files);
    assert forall|i: int, j: int| 0 <= i < s2.len() && 0 <= j < s2.len() && i != j implies s2[i]
        != s2[j] by {
        if j == stack.len() {
            assert(stack[i] == s2[i]);
        } else if i == stack.len() {
            assert(stack[j] == s2[j]);
        }
    }
    assert forall|i: int| 0 <= i < s2.len() implies u.contains(#[trigger] s2[i]) by {
        if i < stack.len() {
            assert(stack[i] == s2[i]);
        }
    }
    s2.unique_seq_to_set();
    u.lemma_cardinality_of_set();
    assert forall|x: ResolutionView| s2.to_set().contains(x) implies u.to_set().contains(x) by {
        let i = choose|i: int| 0 <= i < s2.len() && s2[i] == x;
        assert(u.contains(s2[i]));
    }
    vstd::set_lib::lemma_len_subset(s2.to_set(), u.to_set());
}

/// A user file that is found is one an import can resolve to.
pub proof fn lemma_user_in_universe(files: Seq<(Seq<char>, Seq<char>)>, path: Seq<char>)
    requires
        entry_lookup(files, path) is Some,
    ensures
        universe(files).contains(ResolutionView::User(path)),
{
    lemma_entry_lookup_found(files, path);
    let i = choose|i: int| 0 <= i < files.len() && #[trigger] files[i].0 == path;
    let lib = library_files().map_values(|e: (Seq<char>, Seq<char>)| ResolutionView::Builtin(e.0));
    assert(universe(files)[lib.len() + i] == ResolutionView::User(path));
}

/// A library module that is found is one an import can resolve to.
pub proof fn lemma_builtin_in_universe(files: Seq<(Seq<char>, Seq<char>)>, path: Seq<char>)
    requires
        builtin_source(path) is Some,
    ensures
        universe(files).contains(ResolutionView::Builtin(strip_slashes(path))),
{
    let f = strip_slashes(path);
    lemma_entry_lookup_found(library_files(), f);
    let i = choose|i: int| 0 <= i < library_files().len() && #[trigger] library_files()[i].0 == f;
    assert(universe(files)[i] == ResolutionView::Builtin(f));
}

/// The position of the first `x` in `s` (the length of `s` if there is none).
pub open spec fn first_index(s: Seq<ResolutionView>, x: ResolutionView) -> nat
    decreases s.len(),
{
    if s.len() == 0 {
        0
    } else if s[0] == x {
        0
    } else {
        1 + first_index(s.drop_first(), x)
    }
}

pub proof fn lemma_first_index(s: Seq<ResolutionView>, x: ResolutionView, k: int)
    requires
        0 <= k <= s.len(),
        k < s.len() ==> s[k] == x,
        forall|j: int| 0 <= j < k ==> s[j] != x,
    ensures
        first_index(s, x) == k,
    decreases k,
{
    if k > 0 {
        assert forall|j: int| 0 <= j < k - 1 implies s.drop_first()[j] != x by {
            assert(s.drop_first()[j] == s[j + 1]);
        }
        lemma_first_index(s.drop_first(), x, k - 1);
    } else if s.len() > 0 {
    }
}

/// The import cycle closed by importing `r` again: the stack from the first
/// import of `r` on, then `r`.
pub open spec fn cycle_of(stack: Seq<ResolutionView>, r: ResolutionView) -> Seq<ResolutionView> {
    stack.skip(first_index(stack, r) as int).push(r)
}

/// Where `module` is found: the user file in `dir` if there is one, else the
/// library module; or the error for a module found nowhere.
pub open spec fn resolve_spec(
    files: Seq<(Seq<char>, Seq<char>)>,
    module: Seq<char>,
    dir: Option<Seq<char>>,
) -> Result<(Seq<char>, ResolutionView), ImportErrorView> {
    let file = module_file(module);
    match dir {
        Some(d) => {
            let p = join_path(d, file);
            match entry_lookup(files, p) {
                Some(src) => Ok((src, ResolutionView::User(p))),
                None => match builtin_source(file) {
                    Some(src) => Ok((src, ResolutionView::Builtin(strip_slashes(file)))),
                    None => Err(ImportErrorView::Io(p)),
                },
            }
        },
        None => match builtin_source(file) {
            Some(src) => Ok((src, ResolutionView::Builtin(strip_slashes(file)))),
            None => Err(ImportErrorView::Io(strip_slashes(file))),
        },
    }
}

/// Importing `module`: resolve it, refuse a module that is already being
/// imported, then tokenize, parse and desugar its source with the module
/// pushed on the stack; the imports of a library module are resolved in the
/// library alone. Also gives the import stack left behind: `stack` itself on
/// success.
pub open spec fn import_spec(
    files: Seq<(Seq<char>, Seq<char>)>,
    stack: Seq<ResolutionView>,
    module: Seq<char>,
    dir: Option<Seq<char>>,
) -> (Result<ExprView, ImportErrorView>, Seq<ResolutionView>)
    decreases import_measure(files, stack), 0nat,
    when stack_ok(files, stack)
{
    match resolve_spec(files, module, dir) {
        Err(e) => (Err(e), stack),
        Ok((src, res)) => if stack.contains(res) {
            (Err(ImportErrorView::CircularDependency(cycle_of(stack, res))), stack)
        } else {
            let pushed = stack.push(res);
            proof {
                match dir {
                    Some(d) => if entry_lookup(files, join_path(d, module_file(module))) is Some {
                        lemma_user_in_universe(files, join_path(d, module_file(module)));
                    } else {
                        lemma_builtin_in_universe(files, module_file(module));
                    },
                    None => {
                        lemma_builtin_in_universe(files, module_file(module));
                    },
                }
                lemma_push_ok(files, stack, res);
            }
            match tokenize_spec(src) {
                Err(p) => (Err(ImportErrorView::Tokenize(p, res.path())), pushed),
                Ok(ts) => match parse_spec(ts) {
                    Err(q) => (Err(ImportErrorView::Parse(q, res.path())), pushed),
                    Ok(ast) => {
                        let sub_dir = match res {
                            ResolutionView::Builtin(_) => None,
                            ResolutionView::User(_) => dir,
                        };
                        match desugar_spec(ast, files, pushed, sub_dir) {
                            (Ok(e), _) => (Ok(e), stack),
                            (Err(e), s) => (Err(e), s),
                        }
                    },
                },
            }
        },
    }
}

/// The model of an importer: the modules being imported, outermost first,
/// and the user files it can import, as (path, source) pairs.
pub struct ImporterView {
    pub stack: Seq<ResolutionView>,
    pub files: Seq<(Seq<char>, Seq<char>)>,
}

/// Resolves and loads imported modules, and detects import cycles. The
/// user files next to a program are handed to it when it is made.
pub struct Importer {
    stack: Vec<Resolution>,
    files: Vec<(String, String)>,
}

impl View for Importer {
    type V = ImporterView;

    closed spec fn view(&self) -> ImporterView {
        ImporterView { stack: resolutions_view(self.stack@), files: pairs_view(self.files@) }
    }
}

impl Importer {
    pub open spec fn wf(&self) -> bool {
        stack_ok(self@.files, self@.stack)
    }

    /// An importer with no user files: only the library can be imported.
    pub fn new() -> (r: Self)
        ensures
            r.wf(),
            r@.stack == Seq::<ResolutionView>::empty(),
            r@.files == Seq::<(Seq<char>, Seq<char>)>::empty(),
    {
        let r = Importer { stack: Vec::new(), files: Vec::new() };
        proof {
            assert(r@.stack =~= Seq::<ResolutionView>::empty());
            assert(r@.files =~= Seq::<(Seq<char>, Seq<char>)>::empty());
        }
        r
    }

    /// An importer that can import the given user files, each a (path,
    /// source) pair, besides the library.
    pub fn with_files(files: Vec<(String, String)>) -> (r: Self)
        ensures
            r.wf(),
            r@.stack == Seq::<ResolutionView>::empty(),
            r@.files == pairs_view(files@),
    {
        let r = Importer { stack: Vec::new(), files };
        proof {
            assert(r@.stack =~= Seq::<ResolutionView>::empty());
        }
        r
    }
}

impl Default for Importer {
    fn default() -> (r: Self)
        ensures
            r.wf(),
            r@.stack == Seq::<ResolutionView>::empty(),
            r@.files == Seq::<(Seq<char>, Seq<char>)>::empty(),
    {
        Importer::new()
    }
}

/// The position of the first entry of `stack` equal to `r`, if any.
fn stack_position(stack: &Vec<Resolution>, r: &Resolution) -> (k: Option<usize>)
    ensures
        k is None ==> !resolutions_view(stack@).contains(r@),
        k matches Some(i) ==> i == first_index(resolutions_view(stack@), r@) && i < stack@.len()
            && resolutions_view(stack@)[i as int] == r@,
{
    let ghost s = resolutions_view(stack@);
    let mut i: usize = 0;
    while i < stack.len()
        invariant
            i <= stack@.len(),
            s == resolutions_view(stack@),
            forall|j: int| 0 <= j < i ==> s[j] != r@,
        decreases stack@.len() - i,
    {
        if same_resolution(&stack[i], r) {
            proof {
                lemma_first_index(s, r@, i as int);
            }
            return Some(i);
        }
        i = i + 1;
    }
    None
}

/// The cycle closed by importing `r` again, `k` being its first position.
fn cycle_from(stack: &Vec<Resolution>, k: usize, r: &Resolution) -> (c: Cycle)
    requires
        k <= stack@.len(),
    ensures
        c@ == resolutions_view(stack@).skip(k as int).push(r@),
{
    let mut v: Vec<Resolution> = Vec::new();
    let mut i: usize = k;
    while i < stack.len()
        invariant
            k <= i <= stack@.len(),
            v@.len() == i - k,
            forall|j: int| 0 <= j < v@.len() ==> v@[j]@ == stack@[k + j]@,
        decreases stack@.len() - i,
    {
        v.push(stack[i].clone());
        i = i + 1;
    }
    v.push(r.clone());
    let c = Cycle(v);
    proof {
        assert(c@ =~= resolutions_view(stack@).skip(k as int).push(r@));
    }
    c
}

impl Importer {
    /// Import a module by its name, searching in the given file directory first,
    /// and then falling back to the built-in modules if not found. If `file_dir` is
    /// `None`, only built-in modules are searched.
    pub fn import(&mut self, module: &str, file_dir: Option<&str>) -> (r: Result<Expr, EvalError>)
        requires
            old(self).wf(),
        ensures
            final(self).wf(),
            final(self)@.files == old(self)@.files,
            agrees_import(
                r,
                import_spec(old(self)@.files, old(self)@.stack, module@, dir_view(file_dir)).0,
            ),
            final(self)@.stack == import_spec(
                old(self)@.files,
                old(self)@.stack,
                module@,
                dir_view(file_dir),
            ).1,
            r is Ok ==> final(self)@.stack == old(self)@.stack,
        decreases import_measure(old(self)@.files, old(self)@.stack), 0nat,
    {
        let ghost files = self@.files;
        let ghost stack = self@.stack;
        let file = module_file_exec(module);
        let (src, resolution) = match file_dir {
            Some(dir) => {
                let p = join_path_exec(dir, file.as_str());
                match find_entry(&self.files, &p) {
                    Some(src) => (src, Resolution::User(p)),
                    None => match get_builtin_module_src(file.as_str()) {
                        Ok(src) => (src, Resolution::Builtin(strip_slashes_exec(file.as_str()))),
                        Err(_) => {
                            return Err(EvalError::Import(ImportError::Io(p)));
                        },
                    },
                }
            },
            None => match get_builtin_module_src(file.as_str()) {
                Ok(src) => (src, Resolution::Builtin(strip_slashes_exec(file.as_str()))),
                Err(e) => {
                    return Err(EvalError::from(e));
                },
            },
        };
        assert(resolve_spec(files, module@, dir_view(file_dir)) == Ok::<
            (Seq<char>, ResolutionView),
            ImportErrorView,
        >((src@, resolution@)));
        if let Some(k) = stack_position(&self.stack, &resolution) {
            let cycle = cycle_from(&self.stack, k, &resolution);
            return Err(EvalError::Import(ImportError::CircularDependency(cycle)));
        }
        proof {
            match dir_view(file_dir) {
                Some(d) => if entry_lookup(files, join_path(d, module_file(module@))) is Some {
                    lemma_user_in_universe(files, join_path(d, module_file(module@)));
                } else {
                    lemma_builtin_in_universe(files, module_file(module@));
                },
                None => {
                    lemma_builtin_in_universe(files, module_file(module@));
                },
            }
            lemma_push_ok(files, stack, resolution@);
        }
        self.stack.push(resolution.clone());
        proof {
            assert(self@.stack =~= stack.push(resolution@));
        }
        let tokens = match tokenize(src.as_str()) {
            Ok(t) => t,
            Err(e) => {
                return Err(EvalError::Import(ImportError::Tokenize(e, resolution.path().clone())));
            },
        };
        let ast = match parse(tokens.as_slice()) {
            Ok(a) => a,
            Err(e) => {
                return Err(EvalError::Import(ImportError::Parse(e, resolution.path().clone())));
            },
        };
        let sub_dir = match &resolution {
            Resolution::Builtin(_) => None,
            Resolution::User(_) => file_dir,
        };
        assert(dir_view(sub_dir) == (match resolution@ {
            ResolutionView::Builtin(_) => None,
            ResolutionView::User(_) => dir_view(file_dir),
        }));
        let expr = desugar(ast, self, sub_dir)?;
        let ghost before = self.stack@;
        assert(resolutions_view(before) == stack.push(resolution@));
        self.stack.pop();
        proof {
            assert(self.stack@ =~= before.drop_last());
            assert forall|i: int| 0 <= i < stack.len() implies resolutions_view(self.stack@)[i] == stack[i] by {
                assert(resolutions_view(before)[i] == before[i]@);
            }
            assert(resolutions_view(self.stack@) =~= stack);
        }
        Ok(expr)
    }
}

/// The names of the library modules, in order.
pub open spec fn library_names() -> Seq<Seq<char>> {
    library().map_values(|e: (Seq<char>, Seq<char>)| e.0)
}

/// Get the list of all library function names (without .lil extension)
pub fn get_lib_function_names() -> (v: Vec<&'static str>)
    ensures
        v@.map_values(|s: &str| s@) == library_names(),
{
    let mut v: Vec<&'static str> = Vec::new();
    v.push("I");
    v.push("K");
    v.push("S");
    v.push("Y");
    v.push("add");
    v.push("and");
    v.push("car");
    v.push("cdr");
    v.push("false");
    v.push("if");
    v.push("iszero");
    v.push("mult");
    v.push("not");
    v.push("or");
    v.push("pair");
    v.push("pred");
    v.push("sub");
    v.push("succ");
    v.push("true");
    proof {
        assert(v@.map_values(|s: &str| s@) =~= library_names());
    }
    v
}

/// The library module `name` in de Bruijn form: its source tokenized,
/// parsed, desugared with only the library to import from, and converted.
pub open spec fn lib_term_spec(name: Seq<char>) -> Result<TermView, EvalErrorView> {
    let file = module_file(name);
    match builtin_source(file) {
        None => Err(EvalErrorView::Import(ImportErrorView::Io(strip_slashes(file)))),
        Some(src) => match tokenize_spec(src) {
            Err(p) => Err(EvalErrorView::Import(ImportErrorView::Tokenize(p, file))),
            Ok(ts) => match parse_spec(ts) {
                Err(q) => Err(EvalErrorView::Import(ImportErrorView::Parse(q, file))),
                Ok(ast) => match desugar_spec(ast, seq![], seq![], None).0 {
                    Err(e) => Err(EvalErrorView::Import(e)),
                    Ok(e) => match de_bruijn_spec(e, seq![]) {
                        Ok(t) => Ok(t),
                        Err(n) => Err(EvalErrorView::UndefinedVariable(n)),
                    },
                },
            },
        },
    }
}

/// Load a library function and convert it to a Term for comparison
pub fn load_lib_function_as_term(name: &str) -> (r: Result<Term, EvalError>)
    ensures
        match lib_term_spec(name@) {
            Ok(t) => r matches Ok(x) && x@ == t,
            Err(e) => r matches Err(x) && x@ == e,
        },
{
    let relative_path = module_file_exec(name);
    let src = match get_builtin_module_src(relative_path.as_str()) {
        Ok(s) => s,
        Err(e) => {
            return Err(EvalError::from(e));
        },
    };
    let tokens = match tokenize(src.as_str()) {
        Ok(t) => t,
        Err(e) => {
            return Err(EvalError::Import(ImportError::Tokenize(e, relative_path)));
        },
    };
    let ast = match parse(tokens.as_slice()) {
        Ok(a) => a,
        Err(e) => {
            return Err(EvalError::Import(ImportError::Parse(e, relative_path)));
        },
    };
    let mut importer = Importer::new();
    proof {
        assert(stack_ok(importer@.files, importer@.stack));
    }
    let expr = desugar(ast, &mut importer, None)?;
    let mut env: Vec<String> = Vec::new();
    proof {
        assert(names_of(env@) =~= Seq::<Seq<char>>::empty());
    }
    de_bruijn(&expr, &mut env)
}

} // verus!
