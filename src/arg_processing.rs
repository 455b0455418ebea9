use vstd::prelude::*;

verus! {

/// The switches that the command line accepts.
#[derive(PartialEq, Eq, Structural)]
enum AllowedFlags {
    F,
    L,
}

impl AllowedFlags {
    /// Whether the switch takes a value (the output file of `-F`).
    fn requires_option(switch: &AllowedFlags) -> (r: bool)
        ensures
            r == (*switch == AllowedFlags::F),
    {
        matches!(switch, AllowedFlags::F)
    }
}

/// One piece of the command line.
enum Argument {
    Flag { switch: AllowedFlags, flag_option_text: Option<String> },
    TargetDir { target: String },
    Value { text: String },
}

/// A piece of the command line, with switches written as their letters.
pub enum ArgView {
    Flag { switch: char, text: Option<Seq<char>> },
    TargetDir { target: Seq<char> },
    Value { value: Seq<char> },
}

/// The text of an optional string.
pub open spec fn option_view(o: Option<String>) -> Option<Seq<char>> {
    match o {
        Some(s) => Some(s@),
        None => None,
    }
}

impl View for Argument {
    type V = ArgView;

    closed spec fn view(&self) -> ArgView {
        match self {
            Argument::Flag { switch, flag_option_text } => ArgView::Flag {
                switch: if *switch == AllowedFlags::F {
                    'F'
                } else {
                    'l'
                },
                text: option_view(*flag_option_text),
            },
            Argument::TargetDir { target } => ArgView::TargetDir { target: target@ },
            Argument::Value { text } => ArgView::Value { value: text@ },
        }
    }
}

/// The pieces of a parsed command line.
spec fn arg_views(v: Seq<Argument>) -> Seq<ArgView> {
    v.map_values(|a: Argument| a@)
}

/// Why a command line was refused.
#[derive(Debug, Clone)]
pub enum ArgParsingError {
    MissingFileOption,
    UnexpectedArgument { argument: String },
}

impl ArgParsingError {
    /// The message that describes the error.
    pub fn to_string(&self) -> (r: String)
        ensures
            match self {
                ArgParsingError::MissingFileOption => r@ == "missing file argument for -F flag"@,
                ArgParsingError::UnexpectedArgument { argument } => r@
                    == "unexpected argument provided of "@ + argument@,
            },
    {
        match self {
            ArgParsingError::MissingFileOption => String::from_str(
                "missing file argument for -F flag",
            ),
            ArgParsingError::UnexpectedArgument { argument } => {
                let mut r = String::from_str("unexpected argument provided of ");
                r.append(argument.as_str());
                r
            },
        }
    }
}

/// The argument starts with a dash: it holds switches.
pub open spec fn is_flag_arg(s: Seq<char>) -> bool {
    s.len() > 0 && s[0] == '-'
}

/// A dash and at most one letter, such as `-F`.
pub open spec fn is_short(s: Seq<char>) -> bool {
    s.len() < 3
}

/// A letter that names a switch.
pub open spec fn is_switch_char(c: char) -> bool {
    c == 'F' || c == 'l'
}

/// The switch letters of a block such as `-lF` or `-Flog.txt`, in order.
pub open spec fn block_switches(s: Seq<char>) -> Seq<char> {
    s.drop_first().filter(|c: char| is_switch_char(c))
}

/// The value written inside a block: the block after as many characters as
/// it has switch letters; none when every character after the dash is one.
pub open spec fn block_text(s: Seq<char>) -> Option<Seq<char>> {
    let n = block_switches(s).len();
    if n == s.len() - 1 {
        None
    } else {
        Some(s.skip(n as int))
    }
}

/// The switch `c` of the block `s`: a `-F` carries the block's value.
pub open spec fn block_argument(s: Seq<char>, c: char) -> ArgView {
    ArgView::Flag {
        switch: c,
        text: if c == 'F' {
            block_text(s)
        } else {
            None
        },
    }
}

/// The switches of the block `s`, in order.
pub open spec fn block_arguments(s: Seq<char>) -> Seq<ArgView> {
    Seq::new(block_switches(s).len(), |k: int| block_argument(s, block_switches(s)[k]))
}

/// The argument at `i` makes the next one the value of `-F`.
pub open spec fn marks_next(a: Seq<Seq<char>>, i: int) -> bool {
    let s = a[i];
    &&& is_flag_arg(s)
    &&& if is_short(s) {
        s == seq!['-', 'F'] && i + 1 < a.len()
    } else {
        block_switches(s).contains('F') && block_text(s) is None
    }
}

/// What the argument at `i` stands for: a switch `-F` or `-l` (any other
/// short switch is ignored), the switches of a block, the value that a
/// preceding `-F` asks for, or else the directory to list.
pub open spec fn arguments_at(a: Seq<Seq<char>>, i: int) -> Seq<ArgView> {
    let s = a[i];
    if is_flag_arg(s) {
        if is_short(s) {
            if s == seq!['-', 'F'] {
                seq![ArgView::Flag { switch: 'F', text: None }]
            } else if s == seq!['-', 'l'] {
                seq![ArgView::Flag { switch: 'l', text: None }]
            } else {
                Seq::empty()
            }
        } else {
            block_arguments(s)
        }
    } else if i > 0 && marks_next(a, i - 1) {
        seq![ArgView::Value { value: s }]
    } else {
        seq![ArgView::TargetDir { target: s }]
    }
}

/// The arguments of the first `n` command-line words, in order.
pub open spec fn arguments_upto(a: Seq<Seq<char>>, n: int) -> Seq<ArgView> {
    Seq::new(n as nat, |i: int| arguments_at(a, i)).flatten()
}

/// The arguments of the command-line words `a` (the program name left out).
pub open spec fn arguments_of(a: Seq<Seq<char>>) -> Seq<ArgView> {
    arguments_upto(a, a.len() as int)
}

/// One mark `j` for each `F` among `switches`.
pub open spec fn f_marks(switches: Seq<char>, j: int) -> Seq<int>
    decreases switches.len(),
{
    if switches.len() == 0 {
        Seq::empty()
    } else {
        f_marks(switches.drop_last(), j) + if switches.last() == 'F' {
            seq![j]
        } else {
            Seq::<int>::empty()
        }
    }
}

/// The marks that the word at `i` adds for the next word, at `i + 1`: one for
/// a short `-F` that is not the last word, one for each `F` of a block
/// without a value of its own.
pub open spec fn marks_of(a: Seq<Seq<char>>, i: int) -> Seq<int> {
    let s = a[i];
    if is_flag_arg(s) && is_short(s) {
        if s == seq!['-', 'F'] && i + 1 < a.len() {
            seq![i + 1]
        } else {
            Seq::empty()
        }
    } else if is_flag_arg(s) && block_text(s) is None {
        f_marks(block_switches(s), i + 1)
    } else {
        Seq::empty()
    }
}

/// The marks that the words before `i` add, in order.
pub open spec fn marks_before(a: Seq<Seq<char>>, i: int) -> Seq<int>
    decreases i,
{
    if i <= 0 {
        Seq::empty()
    } else {
        marks_before(a, i - 1) + marks_of(a, i - 1)
    }
}

/// Every mark of `f_marks` is `j`, and there is one exactly when there is an
/// `F`.
proof fn lemma_f_marks(switches: Seq<char>, j: int)
    ensures
        forall|k: int| 0 <= k < f_marks(switches, j).len() ==> #[trigger] f_marks(switches, j)[k] == j,
        f_marks(switches, j).len() > 0 <==> switches.contains('F'),
    decreases switches.len(),
{
    if switches.len() > 0 {
        let rest = switches.drop_last();
        lemma_f_marks(rest, j);
        if rest.contains('F') {
            let k = choose|k: int| 0 <= k < rest.len() && rest[k] == 'F';
            assert(switches[k] == 'F');
        }
        if switches.contains('F') && switches.last() != 'F' {
            let k = choose|k: int| 0 <= k < switches.len() && switches[k] == 'F';
            assert(rest[k] == 'F');
        }
        if switches.last() == 'F' {
            assert(switches[switches.len() - 1] == 'F');
        }
    }
}

/// Every mark of the word at `i` is `i + 1`, and there is one exactly when
/// the word marks the next one.
proof fn lemma_marks_of(a: Seq<Seq<char>>, i: int)
    requires
        0 <= i < a.len(),
    ensures
        forall|k: int| 0 <= k < marks_of(a, i).len() ==> #[trigger] marks_of(a, i)[k] == i + 1,
        marks_of(a, i).len() > 0 <==> marks_next(a, i),
{
    lemma_f_marks(block_switches(a[i]), i + 1);
}

/// Whether `s` starts with a dash.
fn starts_with_dash(s: &str) -> (r: bool)
    ensures
        r == is_flag_arg(s@),
{
    s.unicode_len() > 0 && s.get_char(0) == '-'
}

/// Reads a short switch such as `-F`: the letter after the dash must be a
/// known switch.
fn extract_single_no_concat_switch(string: &str) -> (r: Result<Argument, ArgParsingError>)
    requires
        is_flag_arg(string@),
    ensures
        string@ == seq!['-', 'F'] ==> (r matches Ok(a) && a@ == (ArgView::Flag {
            switch: 'F',
            text: None,
        })),
        string@ == seq!['-', 'l'] ==> (r matches Ok(a) && a@ == (ArgView::Flag {
            switch: 'l',
            text: None,
        })),
        string@ != seq!['-', 'F'] && string@ != seq!['-', 'l'] ==> (r matches Err(
            ArgParsingError::UnexpectedArgument { argument },
        ) && argument@ == string@.drop_first()),
{
    let len = string.unicode_len();
    let flag_char = string.substring_char(1, len);
    if len == 2 && string.get_char(1) == 'F' {
        proof {
            assert(string@ =~= seq!['-', 'F']);
        }
        Ok(Argument::Flag { switch: AllowedFlags::F, flag_option_text: None })
    } else if len == 2 && string.get_char(1) == 'l' {
        proof {
            assert(string@ =~= seq!['-', 'l']);
        }
        Ok(Argument::Flag { switch: AllowedFlags::L, flag_option_text: None })
    } else {
        proof {
            assert(flag_char@ =~= string@.drop_first());
        }
        Err(ArgParsingError::UnexpectedArgument { argument: String::from_str(flag_char) })
    }
}

/// Reads a short switch; a `-F` that is not the last word marks the next
/// word, at `index + 1`, as its value.
fn process_single_flag(
    string: &str,
    arg_length: usize,
    index: usize,
    discovered_options: &mut Vec<usize>,
) -> (r: Result<Vec<Argument>, ArgParsingError>)
    requires
        is_flag_arg(string@),
        index < arg_length,
    ensures
        string@ == seq!['-', 'F'] || string@ == seq!['-', 'l'] ==> (r matches Ok(v) && v@.len()
            == 1 && v@[0]@ == (ArgView::Flag { switch: string@[1], text: None })),
        string@ != seq!['-', 'F'] && string@ != seq!['-', 'l'] ==> r is Err,
        final(discovered_options)@ == if string@ == seq!['-', 'F'] && index + 1 < arg_length {
            old(discovered_options)@.push((index + 1) as usize)
        } else {
            old(discovered_options)@
        },
{
    let argument = extract_single_no_concat_switch(string)?;
    if let Argument::Flag { switch, .. } = &argument {
        if AllowedFlags::requires_option(switch) && index + 1 < arg_length {
            discovered_options.push(index + 1);
        }
    }
    Ok(vec![argument])
}


/// Splits a block such as `-lF` or `-Flog.txt` into its switch letters and
/// the value written inside it (see `block_text`).
fn split_flag_block(string: &str) -> (r: (Vec<char>, Option<String>))
    requires
        is_flag_arg(string@),
    ensures
        r.0@ == block_switches(string@),
        option_view(r.1) == block_text(string@),
{
    let len = string.unicode_len();
    let ghost rest = string@.drop_first();
    let mut valid_flag_chars: Vec<char> = Vec::new();
    let mut k: usize = 0;
    proof {
        reveal(Seq::filter);
        assert(rest.take(0) =~= Seq::<char>::empty());
    }
    while k + 1 < len
        invariant
            len == string@.len(),
            len >= 1,
            k + 1 <= len,
            rest == string@.drop_first(),
            valid_flag_chars@ == rest.take(k as int).filter(|c: char| is_switch_char(c)),
        decreases len - k,
    {
        let c = string.get_char(k + 1);
        proof {
            reveal(Seq::filter);
            assert(rest.take(k + 1).drop_last() =~= rest.take(k as int));
            assert(rest.take(k + 1).last() == c);
        }
        if c == 'F' || c == 'l' {
            valid_flag_chars.push(c);
        }
        k = k + 1;
    }
    proof {
        assert(rest.take(k as int) =~= rest);
    }
    let valid_flag_block_length = valid_flag_chars.len();
    proof {
        rest.lemma_filter_len(|c: char| is_switch_char(c));
    }
    let flag_option_text = if valid_flag_block_length == len - 1 {
        None
    } else {
        let text = string.substring_char(valid_flag_block_length, len);
        Some(String::from_str(text))
    };
    (valid_flag_chars, flag_option_text)
}

/// A copy of an optional text.
fn clone_text(text: &Option<String>) -> (r: Option<String>)
    ensures
        option_view(r) == option_view(*text),
{
    match text {
        Some(t) => Some(t.clone()),
        None => None,
    }
}

/// Reads a block of switches such as `-lF` or `-Flog.txt`. Each `-F` of a
/// block without a value of its own marks the next word, at `i + 1`, as its
/// value, once per `F`.
fn extract_flags_from_block(
    string: &str,
    discovered_options: &mut Vec<usize>,
    i: usize,
    args_length: usize,
) -> (r: Result<Vec<Argument>, ArgParsingError>)
    requires
        is_flag_arg(string@),
        i < args_length,
    ensures
        r matches Ok(v) && arg_views(v@) == block_arguments(string@),
        index_views(final(discovered_options)@) == index_views(old(discovered_options)@) + if block_text(
            string@,
        ) is None && i + 1 < args_length {
            f_marks(block_switches(string@), i + 1)
        } else {
            Seq::<int>::empty()
        },
{
    let (valid_flag_chars, flag_option_text) = split_flag_block(string);
    let ghost switches = block_switches(string@);
    let ghost expected = block_arguments(string@);
    let ghost marked = index_views(discovered_options@);
    let ghost marks = block_text(string@) is None && i + 1 < args_length;
    let mut arguments: Vec<Argument> = Vec::new();
    let mut k: usize = 0;
    proof {
        assert(switches.take(0) =~= Seq::<char>::empty());
        assert(index_views(discovered_options@) =~= marked + Seq::<int>::empty());
    }
    while k < valid_flag_chars.len()
        invariant
            valid_flag_chars@ == switches,
            switches == block_switches(string@),
            option_view(flag_option_text) == block_text(string@),
            k <= switches.len(),
            arg_views(arguments@) == expected.take(k as int),
            index_views(discovered_options@) == marked + if marks {
                f_marks(switches.take(k as int), i + 1)
            } else {
                Seq::<int>::empty()
            },
            marks == (block_text(string@) is None && i + 1 < args_length),
            expected == block_arguments(string@),
            is_flag_arg(string@),
            i < args_length,
        decreases switches.len() - k,
    {
        let c = valid_flag_chars[k];
        let ghost before = arguments@;
        let ghost before_marks = discovered_options@;
        proof {
            let pred = |c: char| is_switch_char(c);
            string@.drop_first().lemma_filter_pred(pred, k as int);
            assert(pred(switches[k as int]));
            assert(switches.take(k + 1).drop_last() =~= switches.take(k as int));
            assert(switches.take(k + 1).last() == c);
        }
        if c == 'F' {
            arguments.push(
                Argument::Flag { switch: AllowedFlags::F, flag_option_text: clone_text(&flag_option_text) },
            );
            if flag_option_text.is_none() && i + 1 < args_length {
                discovered_options.push(i + 1);
                proof {
                    assert(index_views(discovered_options@) =~= index_views(before_marks).push(
                        i + 1,
                    ));
                }
            }
        } else {
            arguments.push(Argument::Flag { switch: AllowedFlags::L, flag_option_text: None });
        }
        proof {
            assert(arguments@ == before.push(arguments@.last()));
            assert(arguments@.last()@ == expected[k as int]);
            assert(arg_views(arguments@) =~= arg_views(before).push(expected[k as int]));
            assert(expected.take(k + 1) =~= expected.take(k as int).push(expected[k as int]));
            if marks {
                assert(index_views(discovered_options@) =~= marked + f_marks(
                    switches.take(k + 1),
                    i + 1,
                ));
            }
        }
        k = k + 1;
    }
    proof {
        assert(switches.take(k as int) =~= switches);
        assert(expected.take(k as int) =~= expected);
    }
    Ok(arguments)
}

/// The words of a command line after the program name.
pub open spec fn command_words(args: Seq<String>) -> Seq<Seq<char>> {
    if args.len() == 0 {
        Seq::empty()
    } else {
        args.skip(1).map_values(|s: String| s@)
    }
}

/// Every index that the words before `i` mark lies in `1..=i`.
proof fn lemma_marks_before_bounded(a: Seq<Seq<char>>, i: int)
    requires
        0 <= i <= a.len(),
    ensures
        forall|k: int| 0 <= k < marks_before(a, i).len() ==> 1 <= #[trigger] marks_before(a, i)[k] <= i,
    decreases i,
{
    if i > 0 {
        lemma_marks_before_bounded(a, i - 1);
        lemma_marks_of(a, i - 1);
        let m = marks_before(a, i - 1);
        let n = marks_of(a, i - 1);
        assert forall|k: int| 0 <= k < marks_before(a, i).len() implies 1
            <= #[trigger] marks_before(a, i)[k] <= i by {
            if k < m.len() {
                assert(marks_before(a, i)[k] == m[k]);
            } else {
                assert(marks_before(a, i)[k] == n[k - m.len()]);
            }
        }
    }
}

/// Whether `x` is among the indices of `v`.
fn contains_index(v: &Vec<usize>, x: usize) -> (r: bool)
    ensures
        r == v@.contains(x),
{
    let mut k: usize = 0;
    while k < v.len()
        invariant
            k <= v@.len(),
            forall|j: int| 0 <= j < k ==> v@[j] != x,
        decreases v@.len() - k,
    {
        if v[k] == x {
            return true;
        }
        k = k + 1;
    }
    false
}

/// Indices as integers.
spec fn index_views(v: Seq<usize>) -> Seq<int> {
    v.map_values(|x: usize| x as int)
}

/// Splits the command line into switches, values and the target directory
/// (see `arguments_of`). Unknown short switches are left out.
fn parse_flags(args: &Vec<String>) -> (r: Result<Vec<Argument>, ArgParsingError>)
    ensures
        r matches Ok(v) && arg_views(v@) == arguments_of(command_words(args@)),
{
    let n: usize = if args.len() == 0 {
        0
    } else {
        args.len() - 1
    };
    let ghost a = command_words(args@);
    let mut discovered_options: Vec<usize> = Vec::new();
    let mut separated_args: Vec<Argument> = Vec::new();
    let mut i: usize = 0;
    proof {
        assert(arguments_upto(a, 0) =~= Seq::<ArgView>::empty());
        assert(index_views(discovered_options@) =~= Seq::<int>::empty());
    }
    while i < n
        invariant
            a == command_words(args@),
            n == a.len(),
            n == 0 || n + 1 == args@.len(),
            i <= n,
            arg_views(separated_args@) == arguments_upto(a, i as int),
            index_views(discovered_options@) == marks_before(a, i as int),
        decreases n - i,
    {
        let string = args[i + 1].as_str();
        let ghost before_args = separated_args@;
        let ghost before_marks = discovered_options@;
        proof {
            assert(string@ == a[i as int]);
            let f = |k: int| arguments_at(a, k);
            assert(Seq::new((i + 1) as nat, f) =~= Seq::new(i as nat, f).push(f(i as int)));
            Seq::new(i as nat, f).lemma_flatten_push(f(i as int));
            lemma_marks_before_bounded(a, i as int);
        }
        if starts_with_dash(string) && string.unicode_len() < 3 {
            match process_single_flag(string, n, i, &mut discovered_options) {
                Ok(mut arguments) => {
                    separated_args.append(&mut arguments);
                    proof {
                        assert(arg_views(separated_args@) =~= arg_views(before_args) + arguments_at(
                            a,
                            i as int,
                        ));
                    }
                },
                Err(_) => {
                    proof {
                        assert(arguments_at(a, i as int) =~= Seq::<ArgView>::empty());
                        assert(arg_views(separated_args@) =~= arg_views(before_args) + arguments_at(
                            a,
                            i as int,
                        ));
                    }
                },
            }
        } else if starts_with_dash(string) {
            match extract_flags_from_block(string, &mut discovered_options, i, args.len()) {
                Ok(mut arguments) => {
                    separated_args.append(&mut arguments);
                    proof {
                        assert(arg_views(separated_args@) =~= arg_views(before_args) + arguments_at(
                            a,
                            i as int,
                        ));
                    }
                },
                Err(_) => {},
            }
        } else {
            let marked = contains_index(&discovered_options, i);
            proof {
                if i > 0 {
                    let m = marks_before(a, i - 1);
                    let n_marks = marks_of(a, i - 1);
                    lemma_marks_before_bounded(a, i - 1);
                    lemma_marks_of(a, i - 1);
                    assert(marks_before(a, i as int) == m + n_marks);
                    if marked {
                        let k = choose|k: int|
                            0 <= k < discovered_options@.len() && #[trigger] discovered_options@[k]
                                == i;
                        assert(index_views(discovered_options@)[k] == i);
                        if k < m.len() {
                            assert(m[k] == i);
                        }
                    } else if marks_next(a, i - 1) {
                        assert((m + n_marks)[m.len() as int] == i);
                        assert(discovered_options@[m.len() as int] == i);
                    }
                } else if marked {
                    let k = choose|k: int|
                        0 <= k < discovered_options@.len() && #[trigger] discovered_options@[k]
                            == i;
                    assert(index_views(discovered_options@)[k] == i);
                }
            }
            if marked {
                separated_args.push(Argument::Value { text: args[i + 1].clone() });
            } else {
                separated_args.push(Argument::TargetDir { target: args[i + 1].clone() });
            }
            proof {
                assert(arg_views(separated_args@) =~= arg_views(before_args) + arguments_at(
                    a,
                    i as int,
                ));
            }
        }
        proof {
            lemma_f_marks(block_switches(string@), i + 1);
            assert(marks_before(a, i + 1) == marks_before(a, i as int) + marks_of(a, i as int));
            if !is_flag_arg(string@) || (is_short(string@) && !(string@ == seq!['-', 'F'] && i + 1 < n)) {
                assert(marks_of(a, i as int) =~= Seq::<int>::empty());
            }
            assert(index_views(discovered_options@) =~= marks_before(a, i + 1));
        }
        i = i + 1;
    }
    Ok(separated_args)
}


/// What a command line asks of the output file.
pub enum FileRequest {
    /// No `-F`: the listing goes to the terminal.
    NoFile,
    /// A `-F` without a file name.
    MissingPath,
    /// A `-F` with this file name, as written.
    Path { path: Seq<char> },
}

/// The piece is a `-F` switch.
pub open spec fn is_file_flag(x: ArgView) -> bool {
    match x {
        ArgView::Flag { switch, .. } => switch == 'F',
        _ => false,
    }
}

/// The file name of the `-F` at `j`: written inside its block, or else the
/// value that follows it.
pub open spec fn file_flag_value(args: Seq<ArgView>, j: int) -> Option<Seq<char>> {
    match args[j] {
        ArgView::Flag { text: Some(t), .. } => Some(t),
        _ => if j + 1 < args.len() {
            match args[j + 1] {
                ArgView::Value { value } => Some(value),
                _ => None,
            }
        } else {
            None
        },
    }
}

/// The request of the first `-F` at or after `j`.
pub open spec fn file_request_from(args: Seq<ArgView>, j: int) -> FileRequest
    decreases args.len() - j,
{
    if 0 <= j < args.len() {
        if is_file_flag(args[j]) {
            match file_flag_value(args, j) {
                Some(t) => FileRequest::Path { path: t },
                None => FileRequest::MissingPath,
            }
        } else {
            file_request_from(args, j + 1)
        }
    } else {
        FileRequest::NoFile
    }
}

/// The path starts with the home shorthand `~`.
pub open spec fn starts_with_tilde(s: Seq<char>) -> bool {
    s.len() > 0 && s[0] == '~'
}

/// `s` with every `c` replaced by `r`.
pub open spec fn replace_char(s: Seq<char>, c: char, r: Seq<char>) -> Seq<char>
    decreases s.len(),
{
    if s.len() == 0 {
        Seq::empty()
    } else {
        replace_char(s.drop_last(), c, r) + if s.last() == c {
            r
        } else {
            seq![s.last()]
        }
    }
}

/// `file_path` is `written` with its home shorthand resolved: every `~` of a
/// path that starts with one stands for some home directory.
pub open spec fn resolves_home(written: Seq<char>, file_path: Seq<char>) -> bool {
    if starts_with_tilde(written) {
        exists|home: Seq<char>| file_path == replace_char(written, '~', home)
    } else {
        file_path == written
    }
}

/// Relies on `dirs::home_dir`: the current user's home directory (from
/// `$HOME`, else the password database), or `None`; read here as text, and
/// `None` as well when it is not valid Unicode.
#[verifier::external_body]
fn home_dir_text() -> (r: Option<String>) {
    match dirs::home_dir() {
        Some(home) => home.to_str().map(String::from),
        None => None,
    }
}

/// Relies on `std::path::Path::is_dir`: whether the path names an existing
/// directory at the time of the call.
#[verifier::external_body]
fn names_directory(path: &str) -> (r: bool) {
    std::path::Path::new(path).is_dir()
}

/// `file_path` with every `~` replaced by `home`.
fn replace_tilde(file_path: &str, home: &str) -> (r: String)
    ensures
        r@ == replace_char(file_path@, '~', home@),
{
    let len = file_path.unicode_len();
    let mut r = String::new();
    let mut k: usize = 0;
    proof {
        assert(file_path@.take(0) =~= Seq::<char>::empty());
    }
    while k < len
        invariant
            len == file_path@.len(),
            k <= len,
            r@ == replace_char(file_path@.take(k as int), '~', home@),
        decreases len - k,
    {
        let c = file_path.get_char(k);
        proof {
            assert(file_path@.take(k + 1).drop_last() =~= file_path@.take(k as int));
            assert(file_path@.take(k + 1).last() == c);
        }
        if c == '~' {
            r.append(home);
        } else {
            let piece = file_path.substring_char(k, k + 1);
            proof {
                assert(piece@ =~= seq![c]);
            }
            r.append(piece);
        }
        k = k + 1;
    }
    proof {
        assert(file_path@.take(k as int) =~= file_path@);
    }
    r
}

/// Resolves the home shorthand of an output path against `home`, the home
/// directory if one is known: a path that starts with `~` has every `~`
/// replaced by it, and is refused when none is known; any other path is
/// kept.
pub fn expand_home(file_path: &str, home: Option<String>) -> (r: Result<String, ArgParsingError>)
    ensures
        !starts_with_tilde(file_path@) ==> (r matches Ok(s) && s@ == file_path@),
        starts_with_tilde(file_path@) && home is None ==> (r matches Err(
            ArgParsingError::UnexpectedArgument { argument },
        ) && argument@ == file_path@),
        starts_with_tilde(file_path@) && home is Some ==> (r matches Ok(s) && s@ == replace_char(
            file_path@,
            '~',
            home->0@,
        )),
{
    let starts = file_path.unicode_len() > 0 && file_path.get_char(0) == '~';
    if starts {
        match home {
            None => Err(ArgParsingError::UnexpectedArgument { argument: String::from_str(file_path) }),
            Some(home) => Ok(replace_tilde(file_path, home.as_str())),
        }
    } else {
        Ok(String::from_str(file_path))
    }
}

/// Resolves the home shorthand of an output path against the current user's
/// home directory.
fn convert_from_short_unix_home(file_path: &str) -> (r: Result<String, ArgParsingError>)
    ensures
        r matches Ok(s) ==> resolves_home(file_path@, s@),
        r matches Err(e) ==> starts_with_tilde(file_path@) && (e matches ArgParsingError::UnexpectedArgument {
            argument,
        } && argument@ == file_path@),
        !starts_with_tilde(file_path@) ==> r is Ok,
{
    if file_path.unicode_len() > 0 && file_path.get_char(0) == '~' {
        let home = home_dir_text();
        let r = expand_home(file_path, home);
        proof {
            if r is Ok {
                let h = home->0@;
                assert(r->Ok_0@ == replace_char(file_path@, '~', h));
            }
        }
        r
    } else {
        Ok(String::from_str(file_path))
    }
}


/// The file name of the `-F` at `i`, as written.
fn get_file_path_as_str(flag_option_text: &Option<String>, i: usize, flags: &Vec<Argument>) -> (r:
    Result<String, ArgParsingError>)
    requires
        i < flags@.len(),
        flags@[i as int]@ matches ArgView::Flag { text, .. } && text == option_view(
            *flag_option_text,
        ),
    ensures
        match file_flag_value(arg_views(flags@), i as int) {
            Some(t) => r matches Ok(s) && s@ == t,
            None => r matches Err(ArgParsingError::MissingFileOption),
        },
{
    proof {
        assert(arg_views(flags@)[i as int] == flags@[i as int]@);
        if i + 1 < flags@.len() {
            assert(arg_views(flags@)[i + 1] == flags@[i + 1]@);
        }
    }
    match flag_option_text {
        Some(text) => Ok(text.clone()),
        None => {
            if i < flags.len() - 1 {
                match &flags[i + 1] {
                    Argument::Value { text } => Ok(text.clone()),
                    _ => Err(ArgParsingError::MissingFileOption),
                }
            } else {
                Err(ArgParsingError::MissingFileOption)
            }
        },
    }
}

/// The file name of the `-F` at `i`, its home shorthand resolved.
fn get_valid_file_path(flag_option_text: &Option<String>, i: usize, flags: &Vec<Argument>) -> (r:
    Result<String, ArgParsingError>)
    requires
        i < flags@.len(),
        flags@[i as int]@ matches ArgView::Flag { text, .. } && text == option_view(
            *flag_option_text,
        ),
    ensures
        match file_flag_value(arg_views(flags@), i as int) {
            Some(t) => match r {
                Ok(s) => resolves_home(t, s@),
                Err(e) => starts_with_tilde(t) && (e matches ArgParsingError::UnexpectedArgument {
                    argument,
                } && argument@ == t),
            },
            None => r matches Err(ArgParsingError::MissingFileOption),
        },
{
    let file_path = get_file_path_as_str(flag_option_text, i, flags)?;
    convert_from_short_unix_home(file_path.as_str())
}

/// The outcome for the output file `file_path` (its home shorthand already
/// resolved), given whether it names an existing directory: a directory is
/// refused as a missing file name, any other path is written to.
pub fn file_output_decision(file_path: String, names_dir: bool) -> (r: Result<
    (bool, String),
    ArgParsingError,
>)
    ensures
        names_dir ==> r matches Err(ArgParsingError::MissingFileOption),
        !names_dir ==> (r matches Ok((to_file, path)) && to_file && path@ == file_path@),
{
    if names_dir {
        Err(ArgParsingError::MissingFileOption)
    } else {
        Ok((true, file_path))
    }
}

/// Reads the output file that the first `-F` asks for: `(false, "")` when
/// there is none. A name that turns out to be a directory is refused as
/// missing.
fn parse_file_output_args(flags: &Vec<Argument>) -> (r: Result<(bool, String), ArgParsingError>)
    ensures
        match file_request_from(arg_views(flags@), 0) {
            FileRequest::NoFile => r matches Ok((to_file, path)) && !to_file && path@ == Seq::<
                char,
            >::empty(),
            FileRequest::MissingPath => r matches Err(ArgParsingError::MissingFileOption),
            FileRequest::Path { path } => match r {
                Ok((to_file, file)) => to_file && resolves_home(path, file@),
                Err(ArgParsingError::MissingFileOption) => true,
                Err(ArgParsingError::UnexpectedArgument { argument }) => starts_with_tilde(path)
                    && argument@ == path,
            },
        },
{
    let ghost args = arg_views(flags@);
    let mut i: usize = 0;
    while i < flags.len()
        invariant
            i <= flags@.len(),
            args == arg_views(flags@),
            file_request_from(args, 0) == file_request_from(args, i as int),
        decreases flags@.len() - i,
    {
        proof {
            assert(args[i as int] == flags@[i as int]@);
        }
        if let Argument::Flag { switch: AllowedFlags::F, flag_option_text } = &flags[i] {
            let file_path = get_valid_file_path(flag_option_text, i, flags)?;
            let names_dir = names_directory(file_path.as_str());
            return file_output_decision(file_path, names_dir);
        }
        i = i + 1;
    }
    proof {
        assert(args.len() == flags@.len());
    }
    Ok((false, String::new()))
}

/// The piece is a `-l` switch.
pub open spec fn is_extended_flag(x: ArgView) -> bool {
    match x {
        ArgView::Flag { switch, .. } => switch == 'l',
        _ => false,
    }
}

/// Some switch asks for the extended listing (`-l`).
pub open spec fn uses_extended(args: Seq<ArgView>) -> bool {
    exists|j: int| 0 <= j < args.len() && is_extended_flag(#[trigger] args[j])
}

/// Whether some switch asks for the extended listing.
fn parse_extended_attribute_flag(flags: &Vec<Argument>) -> (r: bool)
    ensures
        r == uses_extended(arg_views(flags@)),
{
    let ghost args = arg_views(flags@);
    let mut i: usize = 0;
    while i < flags.len()
        invariant
            i <= flags@.len(),
            args == arg_views(flags@),
            forall|j: int| 0 <= j < i ==> !is_extended_flag(#[trigger] args[j]),
        decreases flags@.len() - i,
    {
        proof {
            assert(args[i as int] == flags@[i as int]@);
        }
        if let Argument::Flag { switch: AllowedFlags::L, .. } = &flags[i] {
            return true;
        }
        i = i + 1;
    }
    false
}

/// The directory named by the first target at or after `j`; the working
/// directory `./` when there is none.
pub open spec fn target_from(args: Seq<ArgView>, j: int) -> Seq<char>
    decreases args.len() - j,
{
    if 0 <= j < args.len() {
        match args[j] {
            ArgView::TargetDir { target } => target,
            _ => target_from(args, j + 1),
        }
    } else {
        "./"@
    }
}

/// The first target directory of the command line, or `./`.
fn find_target(flags: &Vec<Argument>) -> (r: String)
    ensures
        r@ == target_from(arg_views(flags@), 0),
{
    let ghost args = arg_views(flags@);
    let mut i: usize = 0;
    while i < flags.len()
        invariant
            i <= flags@.len(),
            args == arg_views(flags@),
            target_from(args, 0) == target_from(args, i as int),
        decreases flags@.len() - i,
    {
        proof {
            assert(args[i as int] == flags@[i as int]@);
        }
        if let Argument::TargetDir { target } = &flags[i] {
            return target.clone();
        }
        i = i + 1;
    }
    String::from_str("./")
}

/// What to list and where the listing goes.
pub struct Config {
    pub target: String,
    pub to_file: bool,
    pub target_file: String,
    pub extended_attributes: bool,
}

impl Config {
    /// Reads a command line (program name first): the directory to list (the
    /// first plain word that is not the file name of `-F`; `./` if none),
    /// whether to write to a file and which (`-F file`, `-Ffile`, or `-F` as
    /// the last letter of a block followed by the file name), and whether to
    /// show extended attributes (`-l`, also inside a block). Where `-F` names a
    /// file, the outcome also depends on the home directory and on the disk:
    /// the name is refused as missing when, resolved, it names an existing
    /// directory (`file_output_decision` takes that answer), and refused as
    /// unexpected when it starts with `~` and no home directory is known.
    pub fn build(args: Vec<String>) -> (r: Result<Config, ArgParsingError>)
        ensures
            ({
                let flags = arguments_of(command_words(args@));
                match file_request_from(flags, 0) {
                    FileRequest::NoFile => r matches Ok(c) && c.target@ == target_from(flags, 0)
                        && !c.to_file && c.target_file@ == Seq::<char>::empty()
                        && c.extended_attributes == uses_extended(flags),
                    FileRequest::MissingPath => r matches Err(ArgParsingError::MissingFileOption),
                    FileRequest::Path { path } => match r {
                        Ok(c) => c.target@ == target_from(flags, 0) && c.to_file && resolves_home(
                            path,
                            c.target_file@,
                        ) && c.extended_attributes == uses_extended(flags),
                        Err(ArgParsingError::MissingFileOption) => true,
                        Err(ArgParsingError::UnexpectedArgument { argument }) => starts_with_tilde(
                            path,
                        ) && argument@ == path,
                    },
                }
            }),
    {
        let flags = parse_flags(&args);
        let flags = match flags {
            Ok(flags) => flags,
            Err(error) => return Err(error),
        };
        let (to_file, target_file) = parse_file_output_args(&flags)?;
        let extended_attributes = parse_extended_attribute_flag(&flags);
        let target = find_target(&flags);
        Ok(Config { target, to_file, target_file, extended_attributes })
    }
}

} // verus!
