use vstd::prelude::*;
use vstd::string::StringExecFns;

verus! {

/// A program that can be started by name: its name and its WebAssembly
/// module.
#[derive(Clone)]
pub struct App {
    name: String,
    wasm_bytes: Vec<u8>,
}

/// The programs that can be started, in the order they were registered.
#[derive(Clone)]
pub struct AppRegistry {
    apps: Vec<App>,
}

impl App {
    /// The program's name and module.
    pub closed spec fn view(&self) -> (Seq<char>, Seq<u8>) {
        (self.name@, self.wasm_bytes@)
    }
}

/// The names and modules of a sequence of programs.
pub open spec fn entries_of(apps: Seq<App>) -> Seq<(Seq<char>, Seq<u8>)> {
    apps.map_values(|a: App| a@)
}

impl AppRegistry {
    /// The names and modules of the programs, in registration order.
    pub closed spec fn view(&self) -> Seq<(Seq<char>, Seq<u8>)> {
        entries_of(self.apps@)
    }

    /// A registry with no program.
    pub fn new() -> (r: Self)
        ensures
            r@ == Seq::<(Seq<char>, Seq<u8>)>::empty(),
    {
        let r = AppRegistry { apps: Vec::new() };
        proof {
            assert(r@ =~= Seq::<(Seq<char>, Seq<u8>)>::empty());
        }
        r
    }
}

/// Adds a program after the ones already registered (an earlier program of
/// the same name keeps precedence).
pub fn register_app(registry: &mut AppRegistry, name: &str, wasm_bytes: &[u8])
    ensures
        final(registry)@ == old(registry)@.push((name@, wasm_bytes@)),
{
    let app = App { name: String::from_str(name), wasm_bytes: vstd::slice::slice_to_vec(wasm_bytes) };
    registry.apps.push(app);
    proof {
        assert(final(registry)@ =~= old(registry)@.push((name@, wasm_bytes@)));
    }
}

/// The characters that `char::is_whitespace` accepts: those with the
/// Unicode `White_Space` property.
pub open spec fn is_white_space(c: char) -> bool {
    let u = c as u32;
    ||| 0x9 <= u <= 0xd
    ||| u == 0x20
    ||| u == 0x85
    ||| u == 0xa0
    ||| u == 0x1680
    ||| 0x2000 <= u <= 0x200a
    ||| u == 0x2028
    ||| u == 0x2029
    ||| u == 0x202f
    ||| u == 0x205f
    ||| u == 0x3000
}

/// Whether `c` is white space (see `is_white_space`).
pub fn is_whitespace(c: char) -> (r: bool)
    ensures
        r == is_white_space(c),
{
    let u = c as u32;
    (0x9 <= u && u <= 0xd) || u == 0x20 || u == 0x85 || u == 0xa0 || u == 0x1680 || (0x2000 <= u
        && u <= 0x200a) || u == 0x2028 || u == 0x2029 || u == 0x202f || u == 0x205f || u == 0x3000
}

/// The characters of `s` up to its first white space.
pub open spec fn word_prefix(s: Seq<char>) -> Seq<char>
    decreases s.len(),
{
    if s.len() == 0 || is_white_space(s[0]) {
        Seq::empty()
    } else {
        seq![s[0]] + word_prefix(s.drop_first())
    }
}

/// The first word of `s`, as `s.split_whitespace().next().unwrap_or("")`
/// gives it: white space before it is skipped, and it ends at the next white
/// space; empty when `s` holds only white space.
pub open spec fn first_word(s: Seq<char>) -> Seq<char>
    decreases s.len(),
{
    if s.len() == 0 {
        Seq::empty()
    } else if is_white_space(s[0]) {
        first_word(s.drop_first())
    } else {
        word_prefix(s)
    }
}

/// The name of the program a command line starts: its first word.
pub fn app_name(command_line: &str) -> (name: String)
    ensures
        name@ == first_word(command_line@),
{
    let s = command_line;
    let n = s.unicode_len();
    let mut i: usize = 0;
    proof {
        assert(s@.skip(0) =~= s@);
    }
    while i < n && is_whitespace(s.get_char(i))
        invariant
            n == s@.len(),
            i <= n,
            first_word(s@) == first_word(s@.skip(i as int)),
        decreases n - i,
    {
        proof {
            assert(s@.skip(i as int).drop_first() =~= s@.skip(i + 1));
        }
        i = i + 1;
    }
    let start = i;
    proof {
        if i < n {
            assert(s@.skip(i as int)[0] == s@[i as int]);
        } else {
            assert(s@.skip(i as int) =~= Seq::<char>::empty());
        }
        assert(first_word(s@) == word_prefix(s@.skip(i as int)));
        assert(s@.subrange(start as int, i as int) =~= Seq::<char>::empty());
    }
    while i < n && !is_whitespace(s.get_char(i))
        invariant
            n == s@.len(),
            start <= i <= n,
            first_word(s@) == s@.subrange(start as int, i as int) + word_prefix(s@.skip(i as int)),
        decreases n - i,
    {
        proof {
            assert(s@.skip(i as int)[0] == s@[i as int]);
            assert(s@.skip(i as int).drop_first() =~= s@.skip(i + 1));
            assert(s@.subrange(start as int, i as int) + seq![s@[i as int]] =~= s@.subrange(start as int, i + 1));
            assert(s@.subrange(start as int, i as int) + (seq![s@[i as int]] + word_prefix(s@.skip(i + 1)))
                =~= s@.subrange(start as int, i + 1) + word_prefix(s@.skip(i + 1)));
        }
        i = i + 1;
    }
    proof {
        if i < n {
            assert(s@.skip(i as int)[0] == s@[i as int]);
        } else {
            assert(s@.skip(i as int) =~= Seq::<char>::empty());
        }
        assert(word_prefix(s@.skip(i as int)) =~= Seq::<char>::empty());
        assert(first_word(s@) =~= s@.subrange(start as int, i as int));
    }
    String::from_str(s.substring_char(start, i))
}

/// The module of the first program named `name`, if any.
pub open spec fn module_named(apps: Seq<(Seq<char>, Seq<u8>)>, name: Seq<char>) -> Option<Seq<u8>>
    decreases apps.len(),
{
    if apps.len() == 0 {
        None
    } else if apps[0].0 == name {
        Some(apps[0].1)
    } else {
        module_named(apps.drop_first(), name)
    }
}

/// The module to run for a command line: that of the first program named
/// by the line's first word, or the error 1 when there is none.
pub fn app_to_run(registry: &AppRegistry, command_line: &str) -> (module: Result<Vec<u8>, i32>)
    ensures
        match module_named(registry@, first_word(command_line@)) {
            Some(bytes) => module matches Ok(v) && v@ == bytes,
            None => module == Err::<Vec<u8>, i32>(1),
        },
        module matches Ok(v) ==> exists|i: int| 0 <= i < registry@.len()
            && registry@[i] == (first_word(command_line@), v@),
        module is Err <==> forall|i: int| 0 <= i < registry@.len() ==> (#[trigger] registry@[i]).0 != first_word(command_line@),
        module is Err ==> module == Err::<Vec<u8>, i32>(1),
{
    proof {
        law_found_by_exact_name(registry@, first_word(command_line@));
    }
    let name = app_name(command_line);
    let apps = &registry.apps;
    let n = apps.len();
    let mut i: usize = 0;
    proof {
        assert(entries_of(apps@).skip(0) =~= entries_of(apps@));
    }
    while i < n
        invariant
            n == apps@.len(),
            i <= n,
            registry@ == entries_of(apps@),
            name@ == first_word(command_line@),
            module_named(registry@, name@) == module_named(entries_of(apps@).skip(i as int), name@),
        decreases n - i,
    {
        let app = &apps[i];
        proof {
            assert(entries_of(apps@).skip(i as int)[0] == app@);
            assert(entries_of(apps@).skip(i as int).drop_first() =~= entries_of(apps@).skip(i + 1));
        }
        if app.name.eq(&name) {
            return Ok(app.wasm_bytes.clone());
        }
        i = i + 1;
    }
    Err(1)
}

/// What `run_app` reports once the module has run: success, or the error 2
/// when running it failed.
pub fn run_outcome(ran: Result<(), String>) -> (r: Result<(), i32>)
    ensures
        ran is Ok ==> r == Ok::<(), i32>(()),
        ran is Err ==> r == Err::<(), i32>(2),
{
    match ran {
        Ok(_) => Ok(()),
        Err(_) => Err(2),
    }
}

/// The status the guest's `runapp` returns for what `run_app` reported: 0
/// on success, the error otherwise.
pub fn exit_status(r: Result<(), i32>) -> (status: i32)
    ensures
        status == match r {
            Ok(_) => 0i32,
            Err(i) => i,
        },
{
    match r {
        Ok(_) => 0,
        Err(i) => i,
    }
}


/// The module found for a name is that of a program registered under
/// exactly that name, with no program of that name before it; and no module
/// is found for a name that no program has.
pub proof fn law_found_by_exact_name(apps: Seq<(Seq<char>, Seq<u8>)>, name: Seq<char>)
    ensures
        module_named(apps, name) is None <==> forall|i: int| 0 <= i < apps.len() ==> (#[trigger] apps[i]).0 != name,
        forall|b: Seq<u8>| #[trigger] module_named(apps, name) == Some(b) ==> exists|i: int|
            0 <= i < apps.len() && apps[i] == (name, b) && forall|j: int| 0 <= j < i ==> (#[trigger] apps[j]).0 != name,
    decreases apps.len(),
{
    if apps.len() > 0 {
        let rest = apps.drop_first();
        law_found_by_exact_name(rest, name);
        if apps[0].0 == name {
            assert(apps[0] == (name, apps[0].1));
        } else {
            assert forall|i: int| 0 <= i < rest.len() implies (#[trigger] rest[i]) == apps[i + 1] by {}
            if module_named(rest, name) is None {
                assert forall|i: int| 0 <= i < apps.len() implies (#[trigger] apps[i]).0 != name by {
                    if i > 0 {
                        assert(apps[i] == rest[i - 1]);
                    }
                }
            } else {
                let b = module_named(rest, name)->Some_0;
                let i = choose|i: int| 0 <= i < rest.len() && rest[i] == (name, b) && forall|j: int| 0 <= j < i ==> (#[trigger] rest[j]).0 != name;
                assert(apps[i + 1] == (name, b));
                assert forall|j: int| 0 <= j < i + 1 implies (#[trigger] apps[j]).0 != name by {
                    if j > 0 {
                        assert(apps[j] == rest[j - 1]);
                    }
                }
                assert(apps[0].0 != name);
                assert(exists|i: int| 0 <= i < rest.len() && rest[i].0 == name);
            }
        }
    }
}

/// A program registered under a name no earlier program has is the one a
/// command line naming it runs; under a name already taken, the earlier
/// program keeps running.
pub proof fn law_register_then_run(apps: Seq<(Seq<char>, Seq<u8>)>, name: Seq<char>, module: Seq<u8>)
    ensures
        module_named(apps, name) is None ==> module_named(apps.push((name, module)), name) == Some(module),
        module_named(apps, name) is Some ==> module_named(apps.push((name, module)), name) == module_named(apps, name),
    decreases apps.len(),
{
    if apps.len() > 0 {
        assert(apps.push((name, module)).drop_first() =~= apps.drop_first().push((name, module)));
        law_register_then_run(apps.drop_first(), name, module);
    } else {
        assert(apps.push((name, module))[0] == (name, module));
    }
}

/// The word at the start of `s` when `s` starts with `word` (which holds no
/// white space) followed by white space or nothing.
proof fn lemma_word_prefix(word: Seq<char>, rest: Seq<char>)
    requires
        forall|k: int| 0 <= k < word.len() ==> !is_white_space(#[trigger] word[k]),
        rest.len() == 0 || is_white_space(rest[0]),
    ensures
        word_prefix(word + rest) == word,
    decreases word.len(),
{
    if word.len() == 0 {
        assert(word + rest =~= rest);
    } else {
        assert((word + rest)[0] == word[0]);
        assert((word + rest).drop_first() =~= word.drop_first() + rest);
        assert forall|k: int| 0 <= k < word.drop_first().len() implies !is_white_space(#[trigger] word.drop_first()[k]) by {
            assert(word.drop_first()[k] == word[k + 1]);
        }
        lemma_word_prefix(word.drop_first(), rest);
        assert(seq![word[0]] + word.drop_first() =~= word);
    }
}

/// The program a command line names is its first word: white space before
/// it is skipped, and the arguments after it (separated by white space) do
/// not matter.
pub proof fn law_first_word(blank: Seq<char>, word: Seq<char>, rest: Seq<char>)
    requires
        forall|k: int| 0 <= k < blank.len() ==> is_white_space(#[trigger] blank[k]),
        word.len() > 0,
        forall|k: int| 0 <= k < word.len() ==> !is_white_space(#[trigger] word[k]),
        rest.len() == 0 || is_white_space(rest[0]),
    ensures
        first_word(blank + word + rest) == word,
    decreases blank.len(),
{
    if blank.len() == 0 {
        assert(blank + word + rest =~= word + rest);
        lemma_word_prefix(word, rest);
        assert((word + rest)[0] == word[0]);
    } else {
        assert((blank + word + rest)[0] == blank[0]);
        assert((blank + word + rest).drop_first() =~= blank.drop_first() + word + rest);
        assert forall|k: int| 0 <= k < blank.drop_first().len() implies is_white_space(#[trigger] blank.drop_first()[k]) by {
            assert(blank.drop_first()[k] == blank[k + 1]);
        }
        law_first_word(blank.drop_first(), word, rest);
    }
}
} // verus!
