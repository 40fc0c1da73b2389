use vstd::prelude::*;
use crate::seq_facts::{lemma_filter_take_step, lemma_filter_twice};
use vstd::string::StringExecFns;

verus! {

/// A regular file: a name and its contents.
pub struct File {
    name: String,
    size: u64,
    data: Vec<u8>,
}

/// A directory: a name and its entries, in the order they were added.
pub struct Directory<I, O> {
    name: String,
    children: Vec<Inode<I, O>>,
}

/// A device that consumes the bytes written to it.
#[derive(Clone)]
pub struct InputReciever<I> {
    name: String,
    on_input: I,
}

/// A device that produces bytes when read.
#[derive(Clone)]
pub struct Outputter<O> {
    name: String,
    on_output: O,
}

/// A node of the file tree.
pub enum Inode<I, O> {
    File(File),
    Directory(Directory<I, O>),
    InputReciever(InputReciever<I>),
    Outputter(Outputter<O>),
}

/// The mathematical value of a node: names and contents as sequences.
pub enum InodeView<I, O> {
    File { name: Seq<char>, data: Seq<u8> },
    Directory { name: Seq<char>, children: Seq<InodeView<I, O>> },
    InputReciever { name: Seq<char>, on_input: I },
    Outputter { name: Seq<char>, on_output: O },
}

impl<I, O> InodeView<I, O> {
    /// The name of the node.
    pub open spec fn name(self) -> Seq<char> {
        match self {
            InodeView::File { name, .. } => name,
            InodeView::Directory { name, .. } => name,
            InodeView::InputReciever { name, .. } => name,
            InodeView::Outputter { name, .. } => name,
        }
    }
}

/// The values of a sequence of nodes, in order.
pub closed spec fn views_of<I, O>(nodes: Seq<Inode<I, O>>) -> Seq<InodeView<I, O>>
    decreases nodes,
{
    if nodes.len() == 0 {
        Seq::empty()
    } else {
        views_of(nodes.drop_last()).push(nodes.last().view())
    }
}

impl<I, O> Inode<I, O> {
    /// The value of the node and of everything below it.
    pub closed spec fn view(&self) -> InodeView<I, O>
        decreases self,
    {
        match self {
            Inode::File(f) => InodeView::File { name: f.name@, data: f.data@ },
            Inode::Directory(d) => InodeView::Directory { name: d.name@, children: views_of(d.children@) },
            Inode::InputReciever(r) => InodeView::InputReciever { name: r.name@, on_input: r.on_input },
            Inode::Outputter(o) => InodeView::Outputter { name: o.name@, on_output: o.on_output },
        }
    }
}

/// The length and the entries of `views_of`, element by element.
pub proof fn lemma_views_of<I, O>(nodes: Seq<Inode<I, O>>)
    ensures
        views_of(nodes).len() == nodes.len(),
        forall|i: int| 0 <= i < nodes.len() ==> #[trigger] views_of(nodes)[i] == nodes[i].view(),
    decreases nodes.len(),
{
    if nodes.len() > 0 {
        lemma_views_of(nodes.drop_last());
    }
}

/// The kind of a node.
#[derive(Debug, Clone, Copy, PartialEq, Eq, Structural)]
pub enum InodeType {
    File,
    Directory,
    InputReciever,
    Outputter,
}

/// The kind of a node value.
pub open spec fn type_of<I, O>(node: InodeView<I, O>) -> InodeType {
    match node {
        InodeView::File { .. } => InodeType::File,
        InodeView::Directory { .. } => InodeType::Directory,
        InodeView::InputReciever { .. } => InodeType::InputReciever,
        InodeView::Outputter { .. } => InodeType::Outputter,
    }
}

/// The names of a sequence of nodes, in order.
pub open spec fn names_of<I, O>(nodes: Seq<InodeView<I, O>>) -> Seq<Seq<char>> {
    nodes.map_values(|n: InodeView<I, O>| n.name())
}

/// The pieces of `s` between slashes, as `str::split("/")` gives them:
/// there is always one more piece than there are slashes, and pieces may be
/// empty.
pub open spec fn split_slash(s: Seq<char>) -> Seq<Seq<char>>
    decreases s.len(),
{
    if s.len() == 0 {
        seq![Seq::empty()]
    } else {
        let rest = split_slash(s.drop_last());
        if s.last() == '/' {
            rest.push(Seq::empty())
        } else {
            rest.update(rest.len() - 1, rest.last().push(s.last()))
        }
    }
}

/// The first of `nodes` whose name is `name`, if any.
pub open spec fn find_named<I, O>(nodes: Seq<InodeView<I, O>>, name: Seq<char>) -> Option<InodeView<I, O>>
    decreases nodes.len(),
{
    if nodes.len() == 0 {
        None
    } else if nodes[0].name() == name {
        Some(nodes[0])
    } else {
        find_named(nodes.drop_first(), name)
    }
}

/// The node reached from `node` by following `parts` one directory entry at
/// a time; empty parts are skipped.
pub open spec fn resolve<I, O>(node: InodeView<I, O>, parts: Seq<Seq<char>>) -> Option<InodeView<I, O>>
    decreases parts.len(),
{
    if parts.len() == 0 {
        Some(node)
    } else if parts[0].len() == 0 {
        resolve(node, parts.drop_first())
    } else {
        match node {
            InodeView::Directory { children, .. } => match find_named(children, parts[0]) {
                Some(child) => resolve(child, parts.drop_first()),
                None => None,
            },
            _ => None,
        }
    }
}

/// The node that `path` names below `root`.
pub open spec fn lookup<I, O>(root: InodeView<I, O>, path: Seq<char>) -> Option<InodeView<I, O>> {
    resolve(root, split_slash(path))
}

/// The entries of `nodes` whose name is not `name`, in order.
pub open spec fn without_named<I, O>(nodes: Seq<InodeView<I, O>>, name: Seq<char>) -> Seq<InodeView<I, O>> {
    nodes.filter(|n: InodeView<I, O>| n.name() != name)
}

/// A directory node with every entry named `name` removed; other kinds are
/// unchanged.
pub open spec fn delete_entries<I, O>(node: InodeView<I, O>, name: Seq<char>) -> InodeView<I, O> {
    match node {
        InodeView::Directory { name: dir_name, children } => InodeView::Directory {
            name: dir_name,
            children: without_named(children, name),
        },
        _ => node,
    }
}

/// The `/dev` directory: two input devices, `stdout` and `serial0`, and one
/// output device, `stdin`, in that order.
pub open spec fn dev_directory<I, O>(on_stdout: I, on_serial0: I, on_stdin: O) -> InodeView<I, O> {
    InodeView::Directory {
        name: "dev"@,
        children: seq![
            InodeView::InputReciever { name: "stdout"@, on_input: on_stdout },
            InodeView::InputReciever { name: "serial0"@, on_input: on_serial0 },
            InodeView::Outputter { name: "stdin"@, on_output: on_stdin },
        ],
    }
}

/// A directory node with `entry` added after its other entries; other kinds
/// are unchanged.
pub open spec fn with_entry<I, O>(node: InodeView<I, O>, entry: InodeView<I, O>) -> InodeView<I, O> {
    match node {
        InodeView::Directory { name, children } => InodeView::Directory { name, children: children.push(entry) },
        _ => node,
    }
}

/// The value of an optional node.
pub open spec fn view_of_option<I, O>(r: Option<Inode<I, O>>) -> Option<InodeView<I, O>> {
    match r {
        Some(n) => Some(n@),
        None => None,
    }
}

/// The contents of a file node; `None` for other kinds.
pub open spec fn file_contents<I, O>(node: InodeView<I, O>) -> Option<Seq<u8>> {
    match node {
        InodeView::File { data, .. } => Some(data),
        _ => None,
    }
}

/// A file node with its contents replaced; other kinds are unchanged.
pub open spec fn with_contents<I, O>(node: InodeView<I, O>, data: Seq<u8>) -> InodeView<I, O> {
    match node {
        InodeView::File { name, .. } => InodeView::File { name, data },
        _ => node,
    }
}

/// The names of the entries of a directory node; `None` for other kinds.
pub open spec fn directory_listing<I, O>(node: InodeView<I, O>) -> Option<Seq<Seq<char>>> {
    match node {
        InodeView::Directory { children, .. } => Some(names_of(children)),
        _ => None,
    }
}

/// An input device's handler accepts `data`; holds trivially of other kinds.
pub open spec fn accepts_input<I: Fn(Vec<u8>), O>(node: InodeView<I, O>, data: Vec<u8>) -> bool {
    match node {
        InodeView::InputReciever { on_input, .. } => call_requires(on_input, (data,)),
        _ => true,
    }
}

/// For an input device, its handler was called with `data` and returned;
/// holds trivially of other kinds.
pub open spec fn handled_input<I: Fn(Vec<u8>), O>(node: InodeView<I, O>, data: Vec<u8>) -> bool {
    match node {
        InodeView::InputReciever { on_input, .. } => call_ensures(on_input, (data,), ()),
        _ => true,
    }
}

/// An output device's producer may be called; holds trivially of other kinds.
pub open spec fn can_produce<I, O: Fn() -> Vec<u8>>(node: InodeView<I, O>) -> bool {
    match node {
        InodeView::Outputter { on_output, .. } => call_requires(on_output, ()),
        _ => true,
    }
}

/// `r` is what reading `node` may give: for an output device, `Some` of a
/// value that its producer may return; for any other kind, `None`.
pub open spec fn produced_by<I, O: Fn() -> Vec<u8>>(node: InodeView<I, O>, r: Option<Vec<u8>>) -> bool {
    match node {
        InodeView::Outputter { on_output, .. } => r matches Some(v) && call_ensures(on_output, (), v),
        _ => r is None,
    }
}

/// The contents of an optional byte vector.
pub open spec fn bytes_of(r: Option<Vec<u8>>) -> Option<Seq<u8>> {
    match r {
        Some(v) => Some(v@),
        None => None,
    }
}

/// The characters of each string of an optional vector of strings.
pub open spec fn strings_of(r: Option<Vec<String>>) -> Option<Seq<Seq<char>>> {
    match r {
        Some(v) => Some(v@.map_values(|s: String| s@)),
        None => None,
    }
}

impl File {
    /// The name and the contents of the file.
    pub closed spec fn view(&self) -> (Seq<char>, Seq<u8>) {
        (self.name@, self.data@)
    }

    #[verifier::type_invariant]
    spec fn size_matches(self) -> bool {
        self.size == self.data@.len()
    }
}

impl<I, O> Inode<I, O> {
    /// The kind of this node.
    pub fn get_type(&self) -> (t: InodeType)
        ensures
            t == type_of(self@),
    {
        match self {
            Inode::File(_) => InodeType::File,
            Inode::Directory(_) => InodeType::Directory,
            Inode::InputReciever(_) => InodeType::InputReciever,
            Inode::Outputter(_) => InodeType::Outputter,
        }
    }

    /// The contents of a file; `None` for any other kind of node.
    pub fn read_file(&self) -> (r: Option<Vec<u8>>)
        ensures
            bytes_of(r) == file_contents(self@),
    {
        match self {
            Inode::File(file) => Some(file.data.clone()),
            _ => None,
        }
    }

    /// Replaces the contents of a file; any other kind of node is left as it is.
    pub fn write_file(&mut self, data: Vec<u8>)
        ensures
            final(self)@ == with_contents(old(self)@, data@),
    {
        if let Inode::File(file) = self {
            let name = file.name.clone();
            let size = data.len() as u64;
            *file = File { name, size, data };
        }
    }

    /// A new file with the given name and contents.
    pub fn create_file(name: &str, data: Vec<u8>) -> (n: Self)
        ensures
            n@ == (InodeView::<I, O>::File { name: name@, data: data@ }),
    {
        Inode::File(File { name: String::from_str(name), size: data.len() as u64, data })
    }

    /// A new, empty directory with the given name.
    pub fn create_directory(name: &str) -> (n: Self)
        ensures
            n@ == (InodeView::<I, O>::Directory { name: name@, children: Seq::empty() }),
    {
        proof {
            lemma_views_of(Seq::<Inode<I, O>>::empty());
        }
        Inode::Directory(Directory { name: String::from_str(name), children: Vec::new() })
    }

    /// A new input device with the given name and handler.
    pub fn create_inputreciever(name: &str, on_input: I) -> (n: Self)
        ensures
            n@ == (InodeView::<I, O>::InputReciever { name: name@, on_input }),
    {
        Inode::InputReciever(InputReciever { name: String::from_str(name), on_input })
    }

    /// A new output device with the given name and producer.
    pub fn create_outputter(name: &str, on_output: O) -> (n: Self)
        ensures
            n@ == (InodeView::<I, O>::Outputter { name: name@, on_output }),
    {
        Inode::Outputter(Outputter { name: String::from_str(name), on_output })
    }

    /// Hands `data` to the handler of an input device; does nothing for any
    /// other kind of node.
    pub fn write_inputreciever(&self, data: Vec<u8>)
        where I: Fn(Vec<u8>),
        requires
            accepts_input(self@, data),
        ensures
            handled_input(self@, data),
    {
        match self {
            Inode::InputReciever(input_stream) => (input_stream.on_input)(data),
            _ => (),
        }
    }

    /// Reads an output device by calling its producer; `None` for any other
    /// kind of node.
    pub fn read_outputter(&self) -> (r: Option<Vec<u8>>)
        where O: Fn() -> Vec<u8>,
        requires
            can_produce(self@),
        ensures
            produced_by(self@, r),
    {
        match self {
            Inode::Outputter(output_stream) => Some((output_stream.on_output)()),
            _ => None,
        }
    }

    /// A copy of this node and everything below it.
    #[verifier::loop_isolation(false)]
    pub fn duplicate(&self) -> (r: Self)
        where I: Copy, O: Copy,
        ensures
            r@ == self@,
        decreases self,
    {
        match self {
            Inode::File(f) => {
                proof {
                    use_type_invariant(f);
                }
                Inode::File(File { name: f.name.clone(), size: f.size, data: f.data.clone() })
            },
            Inode::Directory(d) => {
                proof {
                    lemma_views_of(d.children@);
                }
                let mut children: Vec<Inode<I, O>> = Vec::new();
                let n = d.children.len();
                for i in 0..n
                    invariant
                        n == d.children@.len(),
                        children@.len() == i,
                        forall|j: int| 0 <= j < i ==> #[trigger] children@[j]@ == d.children@[j]@,
                {
                    proof {
                        vstd::std_specs::vec::axiom_vec_index_decreases(d.children, i as int);
                        assert(decreases_to!(*self => d.children[i as int]));
                    }
                    children.push(d.children[i].duplicate());
                }
                proof {
                    lemma_views_of(children@);
                    assert(views_of(children@) =~= views_of(d.children@));
                }
                Inode::Directory(Directory { name: d.name.clone(), children })
            },
            Inode::InputReciever(r) => Inode::InputReciever(InputReciever { name: r.name.clone(), on_input: r.on_input }),
            Inode::Outputter(o) => Inode::Outputter(Outputter { name: o.name.clone(), on_output: o.on_output }),
        }
    }

    /// Removes from the directory `root` every entry whose name is `path`,
    /// keeping the order of the others; the whole of `path` is compared with
    /// each entry's name. Nothing changes when `root` is not a directory.
    pub fn delete(root: &mut Self, path: &str)
        where I: Copy, O: Copy,
        ensures
            final(root)@ == delete_entries(old(root)@, path@),
    {
        let target = String::from_str(path);
        if let Inode::Directory(directory) = root {
            proof {
                lemma_views_of(directory.children@);
                assert(views_of(directory.children@).take(0) =~= Seq::<InodeView<I, O>>::empty());
            }
            let ghost all = views_of(directory.children@);
            let ghost keep = |n: InodeView<I, O>| n.name() != path@;
            let mut kept: Vec<Inode<I, O>> = Vec::new();
            let n = directory.children.len();
            for i in 0..n
                invariant
                    n == directory.children@.len(),
                    all == views_of(directory.children@),
                    all.len() == n,
                    forall|j: int| 0 <= j < n ==> #[trigger] all[j] == directory.children@[j]@,
                    target@ == path@,
                    keep == (|n: InodeView<I, O>| n.name() != path@),
                    views_of(kept@) == all.take(i as int).filter(keep),
            {
                proof {
                    assert(all.take(i + 1).drop_last() =~= all.take(i as int));
                    assert(all.take(i + 1).last() == all[i as int]);
                    lemma_filter_take_step(all, keep, i as int);
                    assert(all.take(i + 1).filter(keep) == (if keep(all[i as int]) {
                        all.take(i as int).filter(keep).push(all[i as int])
                    } else {
                        all.take(i as int).filter(keep)
                    }));
                    lemma_views_of(kept@);
                }
                if !directory.children[i].name().eq(&target) {
                    let ghost old_kept = kept@;
                    let copy = directory.children[i].duplicate();
                    kept.push(copy);
                    proof {
                        assert(kept@.drop_last() =~= old_kept);
                        assert(views_of(kept@) =~= all.take(i as int).filter(keep).push(all[i as int]));
                    }
                }
            }
            proof {
                assert(all.take(n as int) =~= all);
            }
            directory.children = kept;
        }
    }

    /// The name of this node.
    fn name(&self) -> (s: &String)
        ensures
            s@ == self@.name(),
    {
        match self {
            Inode::File(f) => &f.name,
            Inode::Directory(d) => &d.name,
            Inode::InputReciever(r) => &r.name,
            Inode::Outputter(o) => &o.name,
        }
    }

    /// The names of the entries of a directory, in order; `None` for any
    /// other kind of node.
    pub fn list_directory(&self) -> (r: Option<Vec<String>>)
        ensures
            strings_of(r) == directory_listing(self@),
    {
        match self {
            Inode::Directory(dir) => {
                proof {
                    lemma_views_of(dir.children@);
                }
                let mut names: Vec<String> = Vec::new();
                let n = dir.children.len();
                for i in 0..n
                    invariant
                        n == dir.children@.len(),
                        names@.len() == i,
                        forall|j: int| 0 <= j < i ==> #[trigger] names@[j]@ == dir.children@[j]@.name(),
                {
                    names.push(dir.children[i].name().clone());
                }
                proof {
                    let ghost children = views_of(dir.children@);
                    assert(names@.map_values(|s: String| s@) =~= names_of(children));
                }
                Some(names)
            },
            _ => None,
        }
    }
}

/// `split_slash` of a prefix one character longer.
proof fn lemma_split_step(s: Seq<char>, i: int)
    requires
        0 <= i < s.len(),
    ensures
        s.take(i + 1).drop_last() == s.take(i),
        s.take(i + 1).last() == s[i],
        split_slash(s.take(i + 1)) == (if s[i] == '/' {
            split_slash(s.take(i)).push(Seq::empty())
        } else {
            let rest = split_slash(s.take(i));
            rest.update(rest.len() - 1, rest.last().push(s[i]))
        }),
{
    assert(s.take(i + 1).drop_last() =~= s.take(i));
}

/// `split_slash` never gives an empty sequence of pieces.
proof fn lemma_split_nonempty(s: Seq<char>)
    ensures
        split_slash(s).len() >= 1,
    decreases s.len(),
{
    if s.len() > 0 {
        lemma_split_nonempty(s.drop_last());
    }
}

/// The pieces of `path` between slashes (see `split_slash`).
fn split_path(path: &str) -> (parts: Vec<String>)
    ensures
        parts@.map_values(|p: String| p@) == split_slash(path@),
{
    let n = path.unicode_len();
    let mut parts: Vec<String> = Vec::new();
    let mut start: usize = 0;
    let mut i: usize = 0;
    proof {
        assert(path@.take(0) =~= Seq::<char>::empty());
    }
    while i < n
        invariant
            n == path@.len(),
            start <= i <= n,
            split_slash(path@.take(i as int)) =~= parts@.map_values(|p: String| p@).push(
                path@.subrange(start as int, i as int),
            ),
        decreases n - i,
    {
        let c = path.get_char(i);
        proof {
            lemma_split_step(path@, i as int);
        }
        if c == '/' {
            let piece = String::from_str(path.substring_char(start, i));
            parts.push(piece);
            start = i + 1;
            proof {
                assert(path@.subrange(start as int, i + 1) =~= Seq::<char>::empty());
            }
        } else {
            proof {
                assert(path@.subrange(start as int, i + 1) =~= path@.subrange(start as int, i as int).push(c));
            }
        }
        i = i + 1;
    }
    let last = String::from_str(path.substring_char(start, n));
    parts.push(last);
    proof {
        assert(path@.take(n as int) =~= path@);
        assert(parts@.map_values(|p: String| p@) =~= split_slash(path@));
    }
    parts
}

/// Dropping the first `k` nodes when none of them is named `name` leaves the
/// first match unchanged.
proof fn lemma_find_named_skip<I, O>(nodes: Seq<InodeView<I, O>>, name: Seq<char>, k: int)
    requires
        0 <= k < nodes.len(),
        nodes[k].name() != name,
    ensures
        find_named(nodes.skip(k), name) == find_named(nodes.skip(k + 1), name),
{
    assert(nodes.skip(k).drop_first() =~= nodes.skip(k + 1));
}

/// The index of the first entry of `dir` named `part`, if any.
fn find_child<I, O>(children: &Vec<Inode<I, O>>, part: &String) -> (r: Option<usize>)
    ensures
        match r {
            Some(j) => j < children@.len() && find_named(views_of(children@), part@)
                == Some(children@[j as int]@),
            None => find_named(views_of(children@), part@) is None,
        },
{
    proof {
        lemma_views_of(children@);
        assert(views_of(children@).skip(0) =~= views_of(children@));
    }
    let n = children.len();
    let mut k: usize = 0;
    while k < n
        invariant
            n == children@.len(),
            views_of(children@).len() == n,
            forall|j: int| 0 <= j < n ==> #[trigger] views_of(children@)[j] == children@[j]@,
            k <= n,
            find_named(views_of(children@), part@) == find_named(views_of(children@).skip(k as int), part@),
        decreases n - k,
    {
        if children[k].name().eq(part) {
            return Some(k);
        }
        proof {
            lemma_find_named_skip(views_of(children@), part@, k as int);
        }
        k = k + 1;
    }
    None
}

/// The node that `path` names below `root`, as a copy: the path is split at
/// each slash, empty pieces are skipped, and each other piece selects the
/// first entry of that name in the current directory. `None` when some
/// piece names no entry, or when a piece follows a node that is not a
/// directory.
pub fn get_inode<I: Copy, O: Copy>(root: &Inode<I, O>, path: &str) -> (r: Option<Inode<I, O>>)
    ensures
        view_of_option(r) == lookup(root@, path@),
{
    let parts = split_path(path);
    let ghost pieces = parts@.map_values(|p: String| p@);
    let mut current: &Inode<I, O> = root;
    let mut i: usize = 0;
    let n = parts.len();
    proof {
        assert(pieces.skip(0) =~= pieces);
    }
    while i < n
        invariant
            n == parts@.len(),
            pieces == parts@.map_values(|p: String| p@),
            i <= n,
            lookup(root@, path@) == resolve(current@, pieces.skip(i as int)),
        decreases n - i,
    {
        let part = &parts[i];
        proof {
            assert(pieces.skip(i as int)[0] == part@);
            assert(pieces.skip(i as int).drop_first() =~= pieces.skip(i + 1));
        }
        if part.unicode_len() == 0 {
            i = i + 1;
            continue;
        }
        match current {
            Inode::Directory(directory) => {
                match find_child(&directory.children, part) {
                    Some(j) => {
                        current = &directory.children[j];
                    },
                    None => {
                        return None;
                    },
                }
            },
            _ => {
                return None;
            },
        }
        i = i + 1;
    }
    proof {
        assert(pieces.skip(n as int) =~= Seq::<Seq<char>>::empty());
    }
    Some(current.duplicate())
}

/// Adds the `/dev` directory (see `dev_directory`) as the last entry of the
/// directory `root`, with the given device handlers. Nothing changes when
/// `root` is not a directory.
pub fn init_dev<I, O>(root: &mut Inode<I, O>, on_stdout: I, on_serial0: I, on_stdin: O)
    ensures
        final(root)@ == with_entry(old(root)@, dev_directory(on_stdout, on_serial0, on_stdin)),
{
    let mut children: Vec<Inode<I, O>> = Vec::new();
    children.push(Inode::create_inputreciever("stdout", on_stdout));
    children.push(Inode::create_inputreciever("serial0", on_serial0));
    children.push(Inode::create_outputter("stdin", on_stdin));
    let dev = Inode::Directory(Directory { name: String::from_str("dev"), children });
    proof {
        lemma_views_of(children@);
        let expected = dev_directory(on_stdout, on_serial0, on_stdin);
        assert(views_of(children@) =~= expected->children);
        assert(dev@ == expected);
    }
    if let Inode::Directory(directory) = root {
        let ghost before = directory.children@;
        directory.children.push(dev);
        proof {
            lemma_views_of(before);
            lemma_views_of(directory.children@);
            assert(directory.children@.drop_last() =~= before);
        }
    }
}

/// Splitting `s` followed by a piece without slashes extends the last piece.
proof fn lemma_split_append(s: Seq<char>, t: Seq<char>)
    requires
        forall|k: int| 0 <= k < t.len() ==> t[k] != '/',
    ensures
        split_slash(s + t) == split_slash(s).update(
            split_slash(s).len() - 1,
            split_slash(s).last() + t,
        ),
    decreases t.len(),
{
    lemma_split_nonempty(s);
    if t.len() == 0 {
        assert(s + t =~= s);
        assert(split_slash(s).last() + t =~= split_slash(s).last());
        assert(split_slash(s).update(split_slash(s).len() - 1, split_slash(s).last()) =~= split_slash(s));
    } else {
        lemma_split_append(s, t.drop_last());
        assert((s + t).drop_last() =~= s + t.drop_last());
        assert((s + t).last() == t.last());
        let rest = split_slash(s + t.drop_last());
        assert(rest.last().push(t.last()) =~= split_slash(s).last() + t);
        assert(rest.update(rest.len() - 1, rest.last().push(t.last())) =~= split_slash(s).update(
            split_slash(s).len() - 1,
            split_slash(s).last() + t,
        ));
    }
}

/// Splitting `s`, a slash, then a piece without slashes adds that piece.
proof fn lemma_split_slash_then(s: Seq<char>, t: Seq<char>)
    requires
        forall|k: int| 0 <= k < t.len() ==> t[k] != '/',
    ensures
        split_slash(s.push('/') + t) == split_slash(s).push(t),
{
    lemma_split_append(s.push('/'), t);
    assert(s.push('/').drop_last() =~= s);
    let pieces = split_slash(s.push('/'));
    assert(pieces == split_slash(s).push(Seq::empty()));
    assert(Seq::<char>::empty() + t =~= t);
    assert(pieces.update(pieces.len() - 1, pieces.last() + t) =~= split_slash(s).push(t));
}

/// The pieces of `/dev/<device>`.
proof fn lemma_split_dev_path(device: Seq<char>)
    requires
        forall|k: int| 0 <= k < device.len() ==> device[k] != '/',
    ensures
        split_slash(seq!['/', 'd', 'e', 'v', '/'] + device) == seq![Seq::<char>::empty(), seq!['d', 'e', 'v'], device],
{
    let empty = Seq::<char>::empty();
    let dev = seq!['d', 'e', 'v'];
    assert(split_slash(empty) == seq![empty]);
    assert(empty.push('/').drop_last() =~= empty);
    assert(split_slash(empty.push('/')) == seq![empty, empty]);
    lemma_split_slash_then(empty, dev);
    assert(empty.push('/') + dev =~= seq!['/', 'd', 'e', 'v']);
    lemma_split_slash_then(seq!['/', 'd', 'e', 'v'], device);
    assert(seq!['/', 'd', 'e', 'v'].push('/') + device =~= seq!['/', 'd', 'e', 'v', '/'] + device);
    assert(seq![empty, empty].update(1, empty + dev) =~= seq![empty, dev]) by {
        assert(empty + dev =~= dev);
    }
    assert(seq![empty, dev].push(device) =~= seq![empty, dev, device]);
}

/// The first entry named `name` of a sequence with one entry added at the
/// end, when no earlier entry has that name.
proof fn lemma_find_named_push<I, O>(nodes: Seq<InodeView<I, O>>, entry: InodeView<I, O>, name: Seq<char>)
    requires
        find_named(nodes, name) is None,
        entry.name() == name,
    ensures
        find_named(nodes.push(entry), name) == Some(entry),
    decreases nodes.len(),
{
    if nodes.len() > 0 {
        assert(nodes.push(entry).drop_first() =~= nodes.drop_first().push(entry));
        lemma_find_named_push(nodes.drop_first(), entry, name);
    } else {
        assert(nodes.push(entry)[0] == entry);
    }
}

/// Once `/dev` has been added to a directory that had no entry named `dev`,
/// the paths `/dev/stdout`, `/dev/serial0` and `/dev/stdin` name its three
/// devices, with the handlers it was given.
pub proof fn law_dev_paths<I, O>(root: InodeView<I, O>, on_stdout: I, on_serial0: I, on_stdin: O)
    requires
        root is Directory,
        find_named(root->children, "dev"@) is None,
    ensures
        lookup(with_entry(root, dev_directory(on_stdout, on_serial0, on_stdin)), "/dev/stdout"@)
            == Some(InodeView::<I, O>::InputReciever { name: "stdout"@, on_input: on_stdout }),
        lookup(with_entry(root, dev_directory(on_stdout, on_serial0, on_stdin)), "/dev/serial0"@)
            == Some(InodeView::<I, O>::InputReciever { name: "serial0"@, on_input: on_serial0 }),
        lookup(with_entry(root, dev_directory(on_stdout, on_serial0, on_stdin)), "/dev/stdin"@)
            == Some(InodeView::<I, O>::Outputter { name: "stdin"@, on_output: on_stdin }),
{
    reveal_strlit("dev");
    reveal_strlit("stdout");
    reveal_strlit("serial0");
    reveal_strlit("stdin");
    reveal_strlit("/dev/stdout");
    reveal_strlit("/dev/serial0");
    reveal_strlit("/dev/stdin");
    let dev = dev_directory(on_stdout, on_serial0, on_stdin);
    let new_root = with_entry(root, dev);
    let entries = dev->children;
    let stdout_dev = entries[0];
    let serial_dev = entries[1];
    let stdin_dev = entries[2];
    lemma_find_named_push(root->children, dev, "dev"@);
    assert(new_root->children == root->children.push(dev));
    // The three devices are found in order; their names differ in length.
    assert("stdout"@.len() == 6);
    assert("serial0"@.len() == 7);
    assert("stdin"@.len() == 5);
    assert("stdout"@ != "serial0"@);
    assert("stdout"@ != "stdin"@);
    assert("serial0"@ != "stdin"@);
    assert(find_named(entries, "stdout"@) == Some(stdout_dev));
    assert(entries.drop_first()[0] == serial_dev);
    assert(entries.drop_first().drop_first()[0] == stdin_dev);
    assert(find_named(entries.drop_first(), "serial0"@) == Some(serial_dev));
    assert(find_named(entries, "serial0"@) == Some(serial_dev));
    assert(find_named(entries.drop_first().drop_first(), "stdin"@) == Some(stdin_dev));
    assert(find_named(entries.drop_first(), "stdin"@) == Some(stdin_dev));
    assert(find_named(entries, "stdin"@) == Some(stdin_dev));
    let empty = Seq::<char>::empty();
    let devname = seq!['d', 'e', 'v'];
    assert(devname == "dev"@);
    let devices = seq!["stdout"@, "serial0"@, "stdin"@];
    let found = seq![stdout_dev, serial_dev, stdin_dev];
    let paths = seq!["/dev/stdout"@, "/dev/serial0"@, "/dev/stdin"@];
    assert forall|k: int| 0 <= k < 3 implies lookup(new_root, #[trigger] paths[k]) == Some(found[k]) by {
        let device = devices[k];
        assert(paths[k] =~= seq!['/', 'd', 'e', 'v', '/'] + device);
        lemma_split_dev_path(device);
        let parts = seq![empty, devname, device];
        assert(parts.drop_first() =~= seq![devname, device]);
        assert(parts.drop_first().drop_first() =~= seq![device]);
        assert(parts.drop_first().drop_first().drop_first() =~= Seq::<Seq<char>>::empty());
        assert(find_named(entries, device) == Some(found[k]));
        assert(resolve(found[k], Seq::<Seq<char>>::empty()) == Some(found[k]));
        assert(resolve(dev, seq![device]) == Some(found[k]));
        assert(resolve(new_root, seq![devname, device]) == Some(found[k]));
        assert(resolve(new_root, parts) == Some(found[k]));
    }
    assert(lookup(new_root, paths[0]) == Some(found[0]));
    assert(lookup(new_root, paths[1]) == Some(found[1]));
    assert(lookup(new_root, paths[2]) == Some(found[2]));
}

/// Splitting at a slash splits each side on its own.
proof fn lemma_split_concat(s: Seq<char>, t: Seq<char>)
    ensures
        split_slash(s.push('/') + t) == split_slash(s) + split_slash(t),
    decreases t.len(),
{
    lemma_split_nonempty(s);
    lemma_split_nonempty(t);
    if t.len() == 0 {
        assert(s.push('/') + t =~= s.push('/'));
        assert(s.push('/').drop_last() =~= s);
        assert(split_slash(s) + split_slash(t) =~= split_slash(s).push(Seq::empty()));
    } else {
        lemma_split_concat(s, t.drop_last());
        lemma_split_nonempty(t.drop_last());
        assert((s.push('/') + t).drop_last() =~= s.push('/') + t.drop_last());
        assert((s.push('/') + t).last() == t.last());
        let a = split_slash(s);
        let b = split_slash(t.drop_last());
        if t.last() == '/' {
            assert((a + b).push(Seq::empty()) =~= a + b.push(Seq::empty()));
        } else {
            let ab = a + b;
            assert(ab.last() == b.last());
            assert(ab.update(ab.len() - 1, ab.last().push(t.last())) =~= a + b.update(
                b.len() - 1,
                b.last().push(t.last()),
            ));
        }
    }
}

/// An empty piece anywhere in a path is skipped.
proof fn lemma_resolve_skip_empty<I, O>(node: InodeView<I, O>, x: Seq<Seq<char>>, y: Seq<Seq<char>>)
    ensures
        resolve(node, x + seq![Seq::<char>::empty()] + y) == resolve(node, x + y),
    decreases x.len(),
{
    let parts = x + seq![Seq::<char>::empty()] + y;
    if x.len() == 0 {
        assert(parts.drop_first() =~= y);
        assert(x + y =~= y);
    } else {
        assert(parts[0] == x[0]);
        assert((x + y)[0] == x[0]);
        assert(parts.drop_first() =~= x.drop_first() + seq![Seq::<char>::empty()] + y);
        assert((x + y).drop_first() =~= x.drop_first() + y);
        if x[0].len() == 0 {
            lemma_resolve_skip_empty(node, x.drop_first(), y);
        } else {
            match node {
                InodeView::Directory { children, .. } => match find_named(children, x[0]) {
                    Some(child) => {
                        lemma_resolve_skip_empty(child, x.drop_first(), y);
                    },
                    None => {},
                },
                _ => {},
            }
        }
    }
}

/// Doubling a slash in a path does not change the node it names.
pub proof fn law_lookup_double_slash<I, O>(root: InodeView<I, O>, a: Seq<char>, b: Seq<char>)
    ensures
        lookup(root, a.push('/').push('/') + b) == lookup(root, a.push('/') + b),
{
    lemma_split_concat(a, b);
    lemma_split_concat(a, seq!['/'] + b);
    assert(a.push('/').push('/') + b =~= a.push('/') + (seq!['/'] + b));
    lemma_split_concat(Seq::empty(), b);
    assert(Seq::<char>::empty().push('/') + b =~= seq!['/'] + b);
    assert(split_slash(Seq::<char>::empty()) == seq![Seq::<char>::empty()]);
    let x = split_slash(a);
    let y = split_slash(b);
    assert(split_slash(a.push('/').push('/') + b) =~= x + seq![Seq::<char>::empty()] + y);
    lemma_resolve_skip_empty(root, x, y);
}

/// A leading slash does not change the node a path names.
pub proof fn law_lookup_leading_slash<I, O>(root: InodeView<I, O>, s: Seq<char>)
    ensures
        lookup(root, seq!['/'] + s) == lookup(root, s),
{
    lemma_split_concat(Seq::empty(), s);
    assert(Seq::<char>::empty().push('/') + s =~= seq!['/'] + s);
    assert(split_slash(Seq::<char>::empty()) == seq![Seq::<char>::empty()]);
    lemma_resolve_skip_empty(root, Seq::empty(), split_slash(s));
    assert(Seq::<Seq<char>>::empty() + seq![Seq::<char>::empty()] + split_slash(s) =~= seq![Seq::<char>::empty()] + split_slash(s));
    assert(Seq::<Seq<char>>::empty() + split_slash(s) =~= split_slash(s));
}

/// A trailing slash does not change the node a path names.
pub proof fn law_lookup_trailing_slash<I, O>(root: InodeView<I, O>, s: Seq<char>)
    ensures
        lookup(root, s.push('/')) == lookup(root, s),
{
    lemma_split_concat(s, Seq::empty());
    assert(s.push('/') + Seq::<char>::empty() =~= s.push('/'));
    assert(split_slash(Seq::<char>::empty()) == seq![Seq::<char>::empty()]);
    lemma_resolve_skip_empty(root, split_slash(s), Seq::empty());
    assert(split_slash(s) + seq![Seq::<char>::empty()] + Seq::<Seq<char>>::empty() =~= split_slash(s) + seq![Seq::<char>::empty()]);
    assert(split_slash(s) + Seq::<Seq<char>>::empty() =~= split_slash(s));
}

/// The empty path and the path `/` both name the root itself.
pub proof fn law_lookup_root<I, O>(root: InodeView<I, O>)
    ensures
        lookup(root, Seq::empty()) == Some(root),
        lookup(root, seq!['/']) == Some(root),
{
    let empty = Seq::<char>::empty();
    assert(split_slash(empty) == seq![empty]);
    assert(seq![empty].drop_first() =~= Seq::<Seq<char>>::empty());
    assert(seq!['/'].drop_last() =~= empty);
    assert(split_slash(seq!['/']) == seq![empty, empty]);
    assert(seq![empty, empty].drop_first() =~= seq![empty]);
    assert(resolve(root, Seq::<Seq<char>>::empty()) == Some(root));
    assert(resolve(root, seq![empty]) == Some(root));
    assert(resolve(root, seq![empty, empty]) == Some(root));
}

/// After the entries named `name` are deleted from a directory, no entry of
/// that name is left, every entry of another name is still there, and
/// deleting again changes nothing.
pub proof fn law_delete_entries<I, O>(root: InodeView<I, O>, name: Seq<char>)
    requires
        root is Directory,
    ensures
        !names_of(delete_entries(root, name)->children).contains(name),
        forall|k: int|
            0 <= k < root->children.len() && (#[trigger] root->children[k]).name() != name
                ==> delete_entries(root, name)->children.contains(root->children[k]),
        delete_entries(delete_entries(root, name), name) == delete_entries(root, name),
{
    let keep = |n: InodeView<I, O>| n.name() != name;
    let kept = root->children.filter(keep);
    assert(delete_entries(root, name)->children == kept);
    if names_of(kept).contains(name) {
        let k = choose|k: int| 0 <= k < names_of(kept).len() && names_of(kept)[k] == name;
        kept.lemma_filter_pred(keep, k);
    }
    assert forall|k: int|
        0 <= k < root->children.len() && (#[trigger] root->children[k]).name() != name
            implies kept.contains(root->children[k]) by {
        root->children.lemma_filter_contains(keep, k);
    }
    lemma_filter_twice(root->children, keep);
}

/// No entry of `nodes` named `name` means no match.
proof fn lemma_find_named_none<I, O>(nodes: Seq<InodeView<I, O>>, name: Seq<char>)
    requires
        forall|k: int| 0 <= k < nodes.len() ==> (#[trigger] nodes[k]).name() != name,
    ensures
        find_named(nodes, name) is None,
    decreases nodes.len(),
{
    if nodes.len() > 0 {
        assert forall|k: int| 0 <= k < nodes.drop_first().len() implies (#[trigger] nodes.drop_first()[k]).name() != name by {
            assert(nodes.drop_first()[k] == nodes[k + 1]);
        }
        lemma_find_named_none(nodes.drop_first(), name);
    }
}

/// Once the entries named `name` are deleted from the root directory, the
/// path `/name` names nothing (for a non-empty name without slashes).
pub proof fn law_delete_then_lookup<I, O>(root: InodeView<I, O>, name: Seq<char>)
    requires
        root is Directory,
        name.len() > 0,
        forall|k: int| 0 <= k < name.len() ==> name[k] != '/',
    ensures
        lookup(delete_entries(root, name), seq!['/'] + name) is None,
{
    let keep = |n: InodeView<I, O>| n.name() != name;
    let kept = root->children.filter(keep);
    assert forall|k: int| 0 <= k < kept.len() implies (#[trigger] kept[k]).name() != name by {
        root->children.lemma_filter_pred(keep, k);
    }
    lemma_find_named_none(kept, name);
    lemma_split_slash_then(Seq::empty(), name);
    let empty = Seq::<char>::empty();
    assert(empty.push('/') + name =~= seq!['/'] + name);
    assert(split_slash(empty) == seq![empty]);
    let parts = seq![empty, name];
    assert(seq![empty].push(name) =~= parts);
    assert(parts.drop_first() =~= seq![name]);
    assert(resolve(delete_entries(root, name), seq![name]) is None);
}

/// A read of a file gives back what was last written to it, and a read of
/// any other kind of node gives nothing.
pub proof fn law_read_after_write<I, O>(node: InodeView<I, O>, data: Seq<u8>)
    ensures
        file_contents(with_contents(node, data)) == (if node is File {
            Some(data)
        } else {
            None::<Seq<u8>>
        }),
{
}

impl Clone for File {
    /// A copy of the file.
    fn clone(&self) -> (r: Self)
        ensures
            r@ == self@,
    {
        proof {
            use_type_invariant(self);
        }
        File { name: self.name.clone(), size: self.size, data: self.data.clone() }
    }
}

impl<I: Copy, O: Copy> Clone for Inode<I, O> {
    /// A copy of the node and everything below it (see `duplicate`).
    fn clone(&self) -> (r: Self)
        ensures
            r@ == self@,
    {
        self.duplicate()
    }
}
} // verus!
