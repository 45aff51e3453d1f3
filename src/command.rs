//! Expansion of a command template with the list of changed paths.
use vstd::prelude::*;
use vstd::string::*;

verus! {

/// The text of each string.
pub open spec fn string_views(v: Seq<String>) -> Seq<Seq<char>> {
    v.map_values(|s: String| s@)
}

/// `parts` with `sep` between each two of them.
pub open spec fn join(parts: Seq<Seq<char>>, sep: Seq<char>) -> Seq<char>
    decreases parts.len(),
{
    if parts.len() == 0 {
        Seq::empty()
    } else if parts.len() == 1 {
        parts[0]
    } else {
        join(parts.drop_last(), sep) + sep + parts.last()
    }
}

/// Whether `arg` starts with the placeholder `%` followed by `c`.
pub open spec fn starts_with_placeholder(arg: Seq<char>, c: char) -> bool {
    arg.len() >= 2 && arg[0] == '%' && arg[1] == c
}

/// One template argument after substitution, in a single scan from the
/// left: `%F` becomes `list`, `%f` becomes `sequence`, and every other
/// character is copied. Inserted text is not scanned again.
pub open spec fn expand_arg(arg: Seq<char>, list: Seq<char>, sequence: Seq<char>) -> Seq<char>
    decreases arg.len(),
{
    if arg.len() == 0 {
        arg
    } else if starts_with_placeholder(arg, 'F') {
        list + expand_arg(arg.subrange(2, arg.len() as int), list, sequence)
    } else if starts_with_placeholder(arg, 'f') {
        sequence + expand_arg(arg.subrange(2, arg.len() as int), list, sequence)
    } else {
        seq![arg[0]] + expand_arg(arg.drop_first(), list, sequence)
    }
}

/// The program and arguments run for the changed paths `changed`: the
/// template with both placeholders expanded in every argument, or, for an
/// empty template, `echo {file_list} changed` as it stands.
pub open spec fn cmd_argv(changed: Seq<Seq<char>>, command: Seq<Seq<char>>) -> Seq<Seq<char>> {
    if command.len() > 0 {
        command.map_values(|a: Seq<char>| expand_arg(a, join(changed, ", "@), join(changed, " "@)))
    } else {
        seq!["echo"@, "{file_list}"@, "changed"@]
    }
}

/// Joins the texts of `parts` with `sep` between each two.
fn join_with(parts: &Vec<String>, sep: &str) -> (r: String)
    ensures
        r@ == join(string_views(parts@), sep@),
{
    let ghost views = string_views(parts@);
    let n: usize = parts.len();
    if n == 0 {
        return String::new();
    }
    let mut list: String = parts[0].clone();
    assert(views.take(1) =~= seq![views[0]]);
    let mut i: usize = 1;
    while i < n
        invariant
            1 <= i <= n,
            n == parts@.len(),
            views == string_views(parts@),
            list@ == join(views.take(i as int), sep@),
        decreases n - i,
    {
        list.append(sep);
        list.append(parts[i].as_str());
        assert(views.take(i + 1).drop_last() =~= views.take(i as int));
        i = i + 1;
    }
    assert(views.take(n as int) =~= views);
    list
}

/// The changed paths joined with `", "`, for people to read.
pub fn format_files_list(changed_files: &Vec<String>) -> (r: String)
    requires
        changed_files.len() > 0,
    ensures
        r@ == join(string_views(changed_files@), ", "@),
{
    join_with(changed_files, ", ")
}

/// `arg` with `%F` replaced by `list` and `%f` by `sequence`, in one scan
/// from the left.
pub fn expand_placeholders(arg: &str, list: &str, sequence: &str) -> (r: String)
    ensures
        r@ == expand_arg(arg@, list@, sequence@),
{
    let n: usize = arg.unicode_len();
    let mut out: String = String::new();
    let mut i: usize = 0;
    assert(arg@.subrange(0, n as int) =~= arg@);
    while i < n
        invariant
            i <= n,
            n == arg@.len(),
            out@ + expand_arg(arg@.subrange(i as int, n as int), list@, sequence@) == expand_arg(
                arg@,
                list@,
                sequence@,
            ),
        decreases n - i,
    {
        let ghost rest = arg@.subrange(i as int, n as int);
        let c = arg.get_char(i);
        let next = if i + 1 < n {
            arg.get_char(i + 1)
        } else {
            c
        };
        if c == '%' && i + 1 < n && (next == 'F' || next == 'f') {
            assert(rest.subrange(2, rest.len() as int) =~= arg@.subrange(i + 2, n as int));
            if next == 'F' {
                out.append(list);
            } else {
                out.append(sequence);
            }
            assert(out@ + expand_arg(arg@.subrange(i + 2, n as int), list@, sequence@) =~= expand_arg(
                arg@,
                list@,
                sequence@,
            ));
            i = i + 2;
        } else {
            let one = arg.substring_char(i, i + 1);
            assert(one@ =~= seq![rest[0]]);
            assert(rest.drop_first() =~= arg@.subrange(i + 1, n as int));
            out.append(one);
            assert(out@ + expand_arg(arg@.subrange(i + 1, n as int), list@, sequence@) =~= expand_arg(
                arg@,
                list@,
                sequence@,
            ));
            i = i + 1;
        }
    }
    assert(expand_arg(arg@.subrange(n as int, n as int), list@, sequence@) =~= Seq::<char>::empty());
    assert(out@ =~= expand_arg(arg@, list@, sequence@));
    out
}

/// The program and arguments to run for the changed paths. Each template
/// argument is scanned once from the left: `%F` becomes the paths joined
/// with `", "`, `%f` the paths joined with one space. An empty template gives the default
/// action `echo {file_list} changed`, with no substitution.
pub fn build_cmd(changed_files: &Vec<String>, command: &Vec<String>) -> (r: Vec<String>)
    requires
        changed_files.len() > 0,
    ensures
        string_views(r@) == cmd_argv(string_views(changed_files@), string_views(command@)),
{
    let ghost changed = string_views(changed_files@);
    let file_list = format_files_list(changed_files);
    let file_sequence = join_with(changed_files, " ");
    if command.len() > 0 {
        let ghost template = string_views(command@);
        let mut cmd: Vec<String> = Vec::new();
        let mut i: usize = 0;
        while i < command.len()
            invariant
                i <= command@.len(),
                template == string_views(command@),
                file_list@ == join(changed, ", "@),
                file_sequence@ == join(changed, " "@),
                string_views(cmd@) == cmd_argv(changed, template).take(i as int),
            decreases command@.len() - i,
        {
            let arg = expand_placeholders(command[i].as_str(), file_list.as_str(), file_sequence.as_str());
            let ghost prev = string_views(cmd@);
            cmd.push(arg);
            assert(string_views(cmd@) =~= prev.push(arg@));
            assert(template[i as int] == command@[i as int]@);
            assert(cmd_argv(changed, template)[i as int] == arg@);
            assert(string_views(cmd@) =~= cmd_argv(changed, template).take(i + 1));
            i = i + 1;
        }
        assert(cmd_argv(changed, template).take(i as int) =~= cmd_argv(changed, template));
        cmd
    } else {
        let cmd: Vec<String> = vec![
            String::from_str("echo"),
            String::from_str("{file_list}"),
            String::from_str("changed"),
        ];
        assert(string_views(cmd@) =~= cmd_argv(changed, string_views(command@)));
        cmd
    }
}

} // verus!
