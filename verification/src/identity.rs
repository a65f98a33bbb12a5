//! Who a running process is, read from what the kernel shows of it: its
//! parent from the `stat` line, its name and configuration from its
//! argument vector.

use crate::json::{is_json, json_document};
use crate::text::{
    all_digits, chars_of, decimal_reading, first_at, free_of, is_ascii_digit, is_digit,
    join_terminated, lemma_first_at, lemma_split_join, parse_decimal, same_text, split,
    split_text, texts,
};
use vstd::prelude::*;
use vstd::string::*;

verus! {

/// A character of a group's name: an ASCII letter or digit, `_` or `-`.
pub open spec fn is_word_char(c: char) -> bool {
    ('a' <= c && c <= 'z') || ('A' <= c && c <= 'Z') || is_digit(c) || c == '_' || c == '-'
}

/// Whether `s` can be the name of a group: one or more word characters.
pub open spec fn is_group_name(s: Seq<char>) -> bool {
    s.len() > 0 && forall|i: int| 0 <= i < s.len() ==> is_word_char(#[trigger] s[i])
}

/// The last position before `upto` that holds `c`, or -1.
pub open spec fn last_before(s: Seq<char>, c: char, upto: int) -> int
    decreases upto,
{
    if 0 < upto <= s.len() && s[upto - 1] != c {
        last_before(s, c, upto - 1)
    } else {
        upto - 1
    }
}

/// What follows the last `/` of a path.
pub open spec fn basename(path: Seq<char>) -> Seq<char> {
    path.subrange(last_before(path, '/', path.len() as int) + 1, path.len() as int)
}

/// The name of an instance: `<group>.<index>`, the group a word, the index
/// a run of digits.
pub open spec fn instance_name_of(group: Seq<char>, index: Seq<char>) -> Seq<char> {
    group + seq!['.'] + index
}

/// The group and the index of an instance name, if it is one.
pub open spec fn instance_parts(name: Seq<char>) -> Option<(Seq<char>, Seq<char>)> {
    let dot = first_at(name, '.', 0);
    let group = name.subrange(0, dot);
    let index = name.subrange(dot + 1, name.len() as int);
    if dot + 1 < name.len() && is_group_name(group) && all_digits(index) {
        Some((group, index))
    } else {
        None
    }
}

/// Whether `name` is written `<word>.<non-negative integer>`.
pub open spec fn is_instance_name(name: Seq<char>) -> bool {
    exists|group: Seq<char>, index: Seq<char>|
        is_group_name(group) && index.len() > 0 && all_digits(index) && name
            == #[trigger] instance_name_of(group, index)
}

/// `instance_parts` reads exactly the names of the grammar, and gives
/// back the group and the index that a name was written from.
pub proof fn law_instance_grammar(name: Seq<char>)
    ensures
        instance_parts(name) is Some <==> is_instance_name(name),
        forall|group: Seq<char>, index: Seq<char>|
            is_group_name(group) && index.len() > 0 && all_digits(index) && name
                == #[trigger] instance_name_of(group, index) ==> instance_parts(name) == Some(
                (group, index),
            ),
{
    lemma_first_at(name, '.', 0);
    let dot = first_at(name, '.', 0);
    if instance_parts(name) is Some {
        let group = name.subrange(0, dot);
        let index = name.subrange(dot + 1, name.len() as int);
        assert(name =~= instance_name_of(group, index));
    }
    assert forall|group: Seq<char>, index: Seq<char>|
        is_group_name(group) && index.len() > 0 && all_digits(index) && name
            == #[trigger] instance_name_of(group, index) implies instance_parts(name) == Some(
        (group, index),
    ) by {
        let g = group.len() as int;
        assert(name[g] == '.');
        assert forall|k: int| 0 <= k < g implies name[k] != '.' by {
            assert(name[k] == group[k]);
            assert(is_word_char(group[k]));
        }
        if dot < g {
            assert(name[dot] == '.');
        }
        assert(dot == g);
        assert(name.subrange(0, dot) =~= group);
        assert(name.subrange(dot + 1, name.len() as int) =~= index);
    }
}

/// Whether `c` is a character of a group's name.
pub fn is_word(c: char) -> (b: bool)
    ensures
        b == is_word_char(c),
{
    (c >= 'a' && c <= 'z') || (c >= 'A' && c <= 'Z') || is_ascii_digit(c) || c == '_' || c == '-'
}

/// Splits the name of an instance into its group and its index.
pub fn parse_name(name: &str) -> (r: Option<(String, String)>)
    ensures
        match instance_parts(name@) {
            Some((group, index)) => r is Some && (r->0).0@ == group && (r->0).1@ == index,
            None => r is None,
        },
{
    let v = chars_of(name);
    let n: usize = v.len();
    let mut dot: usize = 0;
    while dot < n && v[dot] != '.'
        invariant
            v@ == name@,
            n == v.len(),
            dot <= n,
            first_at(name@, '.', 0) == first_at(name@, '.', dot as int),
        decreases n - dot,
    {
        dot += 1;
    }
    assert(dot == first_at(name@, '.', 0));
    if n - dot <= 1 || dot == 0 {
        assert(name@.subrange(0, 0).len() == 0);
        return None;
    }
    let mut i: usize = 0;
    while i < dot
        invariant
            v@ == name@,
            i <= dot < n == v.len(),
            dot == first_at(name@, '.', 0),
            forall|k: int| 0 <= k < i ==> is_word_char(#[trigger] v[k]),
        decreases dot - i,
    {
        if !is_word(v[i]) {
            proof {
                let group = name@.subrange(0, dot as int);
                assert(group[i as int] == v[i as int]);
                assert(!is_word_char(group[i as int]));
                assert(!is_group_name(group));
            }
            return None;
        }
        i += 1;
    }
    let mut j: usize = dot + 1;
    while j < n
        invariant
            v@ == name@,
            dot < j <= n == v.len(),
            dot == first_at(name@, '.', 0),
            forall|k: int| dot < k < j ==> is_digit(#[trigger] v[k]),
        decreases n - j,
    {
        if !is_ascii_digit(v[j]) {
            proof {
                let index = name@.subrange(dot + 1, n as int);
                assert(index[j - dot - 1] == v[j as int]);
                assert(!is_digit(index[j - dot - 1]));
                assert(!all_digits(index));
            }
            return None;
        }
        j += 1;
    }
    let group = String::from_str(name.substring_char(0, dot));
    let index = String::from_str(name.substring_char(dot + 1, n));
    proof {
        assert forall|k: int| 0 <= k < group@.len() implies is_word_char(#[trigger] group@[k]) by {
            assert(group@[k] == v[k]);
        }
        assert forall|k: int| 0 <= k < index@.len() implies is_digit(#[trigger] index@[k]) by {
            assert(index@[k] == v[k + dot + 1]);
        }
    }
    Some((group, index))
}

/// The blank characters of a `stat` line.
pub open spec fn is_blank(c: char) -> bool {
    c == ' ' || c == '\t' || c == '\n' || c == '\r' || c == '\x0b' || c == '\x0c'
}

/// The character classes that a `stat` line is made of.
#[derive(Clone, Copy, PartialEq, Eq, Structural)]
pub enum Class {
    Digit,
    Blank,
    Solid,
    Inside,
}

/// Whether `c` is of `class`.
pub open spec fn in_class(c: char, class: Class) -> bool {
    match class {
        Class::Digit => is_digit(c),
        Class::Blank => is_blank(c),
        Class::Solid => !is_blank(c),
        Class::Inside => c != ')',
    }
}

/// Where the run of `class` that starts at `from` ends.
pub open spec fn run_end(s: Seq<char>, class: Class, from: int) -> int
    decreases s.len() - from,
{
    if 0 <= from < s.len() && in_class(s[from], class) {
        run_end(s, class, from + 1)
    } else {
        from
    }
}

/// The pid of the parent in a `stat` line: the line starts with a pid,
/// the command's name in round brackets and a state, each followed by
/// blanks; then comes the parent's pid, and a blank after it.
pub open spec fn parent_of(stat: Seq<char>) -> Option<i32> {
    let a = run_end(stat, Class::Digit, 0);
    let b = run_end(stat, Class::Blank, a);
    let c = run_end(stat, Class::Inside, b + 1);
    let d = run_end(stat, Class::Blank, c + 1);
    let e = run_end(stat, Class::Solid, d);
    let f = run_end(stat, Class::Blank, e);
    let g = run_end(stat, Class::Digit, f);
    if 0 < a < b < stat.len() && stat[b] == '(' && c < stat.len() && c + 1 < d && d < e && e < f
        && f < g && g < stat.len() && is_blank(stat[g]) {
        match decimal_reading(stat.subrange(f, g), i32::MAX as nat) {
            Some(n) => Some(n as i32),
            None => None,
        }
    } else {
        None
    }
}

fn class_has(c: char, class: Class) -> (b: bool)
    ensures
        b == in_class(c, class),
{
    match class {
        Class::Digit => is_ascii_digit(c),
        Class::Blank => c == ' ' || c == '\t' || c == '\n' || c == '\r' || c == '\x0b' || c
            == '\x0c',
        Class::Solid => !(c == ' ' || c == '\t' || c == '\n' || c == '\r' || c == '\x0b' || c
            == '\x0c'),
        Class::Inside => c != ')',
    }
}

fn skip(v: &Vec<char>, class: Class, from: usize) -> (r: usize)
    requires
        from <= v.len(),
    ensures
        r == run_end(v@, class, from as int),
        from <= r <= v.len(),
{
    let mut i: usize = from;
    while i < v.len() && class_has(v[i], class)
        invariant
            from <= i <= v.len(),
            run_end(v@, class, from as int) == run_end(v@, class, i as int),
        decreases v.len() - i,
    {
        i += 1;
    }
    i
}

/// The pid of the parent, read from the `stat` line of a process.
pub fn parent_pid(stat: &str) -> (r: Option<i32>)
    ensures
        r == parent_of(stat@),
{
    let v = chars_of(stat);
    let n: usize = v.len();
    let a = skip(&v, Class::Digit, 0);
    let b = skip(&v, Class::Blank, a);
    if !(0 < a && a < b && b < n) {
        return None;
    }
    if v[b] != '(' {
        return None;
    }
    let c = skip(&v, Class::Inside, b + 1);
    if c >= n {
        return None;
    }
    let d = skip(&v, Class::Blank, c + 1);
    let e = skip(&v, Class::Solid, d);
    let f = skip(&v, Class::Blank, e);
    let g = skip(&v, Class::Digit, f);
    if !(c + 1 < d && d < e && e < f && f < g && g < n) {
        return None;
    }
    if !class_has(v[g], Class::Blank) {
        return None;
    }
    match parse_decimal(&v, f, g, 0x7fff_ffff) {
        Some(p) => Some(p as i32),
        None => None,
    }
}

/// Whether the process with this `stat` line is a child of `mypid`.
pub fn is_child(stat: &str, mypid: i32) -> (b: bool)
    ensures
        b == (parent_of(stat@) == Some(mypid)),
{
    match parent_pid(stat) {
        Some(p) => p == mypid,
        None => false,
    }
}

/// Reads a pid from the name of a directory of the process table: one or
/// more digits, no larger than the largest `i32`.
pub fn parse_pid(name: &str) -> (r: Option<i32>)
    ensures
        match decimal_reading(name@, i32::MAX as nat) {
            Some(n) => r == Some(n as i32),
            None => r is None,
        },
{
    let v = chars_of(name);
    assert(v@.subrange(0, v.len() as int) == name@);
    match parse_decimal(&v, 0, v.len(), 0x7fff_ffff) {
        Some(p) => Some(p as i32),
        None => None,
    }
}

/// Who a running process is, as far as its argument vector tells.
#[derive(Clone, Debug, PartialEq, Eq)]
pub enum RecoveredIdentity {
    /// Not a process that this supervisor started.
    Unidentified,
    /// An instance, with the serialized configuration it was started with.
    Identified { name: String, config: String },
}

/// An identity, with its texts as sequences of characters.
pub enum IdentityView {
    Unidentified,
    Identified { name: Seq<char>, config: Seq<char> },
}

impl View for RecoveredIdentity {
    type V = IdentityView;

    open spec fn view(&self) -> IdentityView {
        match *self {
            RecoveredIdentity::Unidentified => IdentityView::Unidentified,
            RecoveredIdentity::Identified { name, config } => IdentityView::Identified {
                name: name@,
                config: config@,
            },
        }
    }
}

/// The argument vector that the supervisor starts an instance with: the
/// program, three flags with their values, and nothing behind them.
pub open spec fn instance_argv(
    program: Seq<char>,
    name: Seq<char>,
    global_config: Seq<char>,
    config: Seq<char>,
) -> Seq<Seq<char>> {
    seq![program, "--name"@, name, "--global-config"@, global_config, "--config"@, config]
}

/// The name and the configuration in the arguments of a process, where
/// they are laid out as `instance_argv` lays them out for a program called
/// `binary` and for this `global_config`. An argument ends at a NUL, and
/// behind the NUL of the last there is nothing.
pub open spec fn argv_identity(
    cmdline: Seq<char>,
    binary: Seq<char>,
    global_config: Seq<char>,
) -> Option<(Seq<char>, Seq<char>)> {
    let f = split(cmdline, '\0');
    if f.len() == 8 && basename(f[0]) == binary && f.subrange(0, 7) == instance_argv(
        f[0],
        f[2],
        global_config,
        f[6],
    ) && f[7].len() == 0 {
        Some((f[2], f[6]))
    } else {
        None
    }
}

/// Who the process with this argument vector is: an instance where the
/// arguments are laid out as the supervisor lays them out, the name is an
/// instance name and the configuration is a JSON document.
pub open spec fn recovered(
    cmdline: Seq<char>,
    binary: Seq<char>,
    global_config: Seq<char>,
) -> IdentityView {
    match argv_identity(cmdline, binary, global_config) {
        Some((name, config)) => if instance_parts(name) is Some && json_document(config) is Some {
            IdentityView::Identified { name, config }
        } else {
            IdentityView::Unidentified
        },
        None => IdentityView::Unidentified,
    }
}

fn file_name(path: &str) -> (r: String)
    ensures
        r@ == basename(path@),
{
    let v = chars_of(path);
    let n: usize = v.len();
    let mut i: usize = n;
    while i > 0 && v[i - 1] != '/'
        invariant
            v@ == path@,
            i <= n == v.len(),
            last_before(path@, '/', n as int) == last_before(path@, '/', i as int),
        decreases i,
    {
        i -= 1;
    }
    String::from_str(path.substring_char(i, n))
}

/// The name and the configuration in the argument vector of a process, as
/// the kernel shows it.
pub fn read_args(cmdline: &str, binary: &str, global_config: &str) -> (r: Option<(String, String)>)
    ensures
        match argv_identity(cmdline@, binary@, global_config@) {
            Some((name, config)) => r is Some && (r->0).0@ == name && (r->0).1@ == config,
            None => r is None,
        },
{
    let f = split_text(cmdline, '\0');
    let ghost fields = split(cmdline@, '\0');
    if f.len() != 8 {
        return None;
    }
    proof {
        assert forall|k: int| 0 <= k < 8 implies fields[k] == #[trigger] f[k]@ by {
            assert(texts(f@)[k] == f[k]@);
        }
    }
    let program = file_name(f[0].as_str());
    let ok = same_text(program.as_str(), binary) && same_text(f[1].as_str(), "--name")
        && same_text(f[3].as_str(), "--global-config") && same_text(
        f[4].as_str(),
        global_config,
    ) && same_text(f[5].as_str(), "--config") && f[7].as_str().unicode_len() == 0;
    let ghost want = instance_argv(fields[0], fields[2], global_config@, fields[6]);
    if !ok {
        proof {
            if fields.subrange(0, 7) == want {
                assert(fields.subrange(0, 7)[1] == want[1]);
                assert(fields.subrange(0, 7)[3] == want[3]);
                assert(fields.subrange(0, 7)[4] == want[4]);
                assert(fields.subrange(0, 7)[5] == want[5]);
            }
        }
        return None;
    }
    assert(fields.subrange(0, 7) =~= want);
    Some((f[2].clone(), f[6].clone()))
}

/// Who a process is whose arguments are laid out as the supervisor lays
/// them out, with `name` and `config` in them; `document` says whether
/// `config` holds a JSON document.
pub fn classify(name: String, config: String, document: bool) -> (r: RecoveredIdentity)
    ensures
        r@ == (if instance_parts(name@) is Some && document {
            IdentityView::Identified { name: name@, config: config@ }
        } else {
            IdentityView::Unidentified
        }),
{
    if parse_name(name.as_str()).is_some() && document {
        RecoveredIdentity::Identified { name, config }
    } else {
        RecoveredIdentity::Unidentified
    }
}

/// Who the process with this argument vector is.
pub fn recover_identity(cmdline: &str, binary: &str, global_config: &str) -> (r: RecoveredIdentity)
    ensures
        r@ == recovered(cmdline@, binary@, global_config@),
{
    match read_args(cmdline, binary, global_config) {
        Some((name, config)) => {
            let document = is_json(config.as_str());
            classify(name, config, document)
        },
        None => RecoveredIdentity::Unidentified,
    }
}

/// What is seen of one entry of the process table: the pid that the
/// entry's name writes, where the `stat` line says that the process is a
/// child of `mypid`.
pub open spec fn child_pid(entry: Seq<char>, stat: Seq<char>, mypid: i32) -> Option<i32> {
    match decimal_reading(entry, i32::MAX as nat) {
        Some(pid) => if parent_of(stat) == Some(mypid) {
            Some(pid as i32)
        } else {
            None
        },
        None => None,
    }
}

/// The pid of an entry of the process table, if the entry is a process and
/// a child of `mypid`.
pub fn child_entry(entry: &str, stat: &str, mypid: i32) -> (r: Option<i32>)
    ensures
        r == child_pid(entry@, stat@, mypid),
{
    match parse_pid(entry) {
        Some(pid) => if is_child(stat, mypid) {
            Some(pid)
        } else {
            None
        },
        None => None,
    }
}

/// A process whose name is not written `<word>.<non-negative integer>` is
/// unidentified, whatever else its arguments hold; and the name of an
/// identified process is always written so.
pub proof fn law_name_grammar(cmdline: Seq<char>, binary: Seq<char>, global_config: Seq<char>)
    ensures
        split(cmdline, '\0').len() > 2 && !is_instance_name(split(cmdline, '\0')[2]) ==> recovered(
            cmdline,
            binary,
            global_config,
        ) == IdentityView::Unidentified,
        recovered(cmdline, binary, global_config) matches IdentityView::Identified { name, .. }
            ==> is_instance_name(name),
{
    let f = split(cmdline, '\0');
    if f.len() > 2 {
        law_instance_grammar(f[2]);
    }
}

/// The arguments that the supervisor starts an instance with say who the
/// instance is: read back from the running process, they give the name
/// and the configuration.
pub proof fn law_argv_round_trip(
    program: Seq<char>,
    name: Seq<char>,
    global_config: Seq<char>,
    config: Seq<char>,
)
    requires
        free_of(program, '\0'),
        free_of(name, '\0'),
        free_of(global_config, '\0'),
        free_of(config, '\0'),
    ensures
        argv_identity(
            join_terminated(instance_argv(program, name, global_config, config), '\0'),
            basename(program),
            global_config,
        ) == Some((name, config)),
{
    let argv = instance_argv(program, name, global_config, config);
    reveal_strlit("--name");
    reveal_strlit("--global-config");
    reveal_strlit("--config");
    assert forall|i: int| 0 <= i < argv.len() implies free_of(#[trigger] argv[i], '\0') by {}
    lemma_split_join(argv, '\0');
    let f = split(join_terminated(argv, '\0'), '\0');
    assert(f == argv.push(Seq::<char>::empty()));
    assert(f.subrange(0, 7) =~= argv);
}

} // verus!
