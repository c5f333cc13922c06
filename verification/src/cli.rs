//! The startup command of a node:
//! `./peer --period=<seconds> --port=<port>` with, optionally,
//! ` --connect="<ip>:<port>"` naming a running node to join.

use vstd::prelude::*;
use vstd::string::*;
use crate::messages::PeerAddr;
use crate::text::{
    all_white_space, is_digit, law_trimmed, white_space,
    decimal, free_of, lemma_decimal, lemma_decimal_free_of, lemma_free_of_concat,
    lemma_parse_decimal, lemma_split_front, lemma_split_single, parse_decimal, parse_unsigned,
    remove_char, same_text, split, split_text, trim_text, trimmed, without_char,
};

verus! {

// ---------------------------------------------------------------------------
// Parameter maps
// ---------------------------------------------------------------------------

/// `key=value` pairs read from the command, in the order given.
/// A later pair with the same key overrides an earlier one.
pub struct ParamMap<'a> {
    pairs: Vec<(&'a str, &'a str)>,
}

/// The map that the pairs `e` give, a later pair overriding an earlier one.
pub open spec fn pairs_map(e: Seq<(&str, &str)>) -> Map<Seq<char>, Seq<char>>
    decreases e.len(),
{
    if e.len() == 0 {
        Map::empty()
    } else {
        pairs_map(e.drop_last()).insert(e.last().0@, e.last().1@)
    }
}

/// The texts of the pairs `e`, in order.
pub open spec fn pair_texts(e: Seq<(&str, &str)>) -> Seq<(Seq<char>, Seq<char>)> {
    Seq::new(e.len(), |i: int| (e[i].0@, e[i].1@))
}

impl<'a> View for ParamMap<'a> {
    type V = Map<Seq<char>, Seq<char>>;

    closed spec fn view(&self) -> Map<Seq<char>, Seq<char>> {
        pairs_map(self.pairs@)
    }
}

proof fn lemma_pairs_map_absent(e: Seq<(&str, &str)>, k: Seq<char>)
    requires
        forall|j: int| 0 <= j < e.len() ==> (#[trigger] e[j]).0@ != k,
    ensures
        !pairs_map(e).dom().contains(k),
    decreases e.len(),
{
    if e.len() > 0 {
        lemma_pairs_map_absent(e.drop_last(), k);
        assert(e[e.len() - 1].0@ != k);
    }
}

proof fn lemma_pairs_map_last(e: Seq<(&str, &str)>, k: Seq<char>, j: int)
    requires
        0 <= j < e.len(),
        e[j].0@ == k,
        forall|l: int| j < l < e.len() ==> (#[trigger] e[l]).0@ != k,
    ensures
        pairs_map(e).dom().contains(k),
        pairs_map(e)[k] == e[j].1@,
    decreases e.len(),
{
    if j < e.len() - 1 {
        assert(e[e.len() - 1].0@ != k);
        let d = e.drop_last();
        assert forall|l: int| j < l < d.len() implies (#[trigger] d[l]).0@ != k by {
            assert(d[l] == e[l]);
        }
        lemma_pairs_map_last(d, k, j);
    }
}

impl<'a> ParamMap<'a> {
    /// The key and value texts of the pairs, in the order given.
    pub closed spec fn entries(&self) -> Seq<(Seq<char>, Seq<char>)> {
        pair_texts(self.pairs@)
    }

    fn new() -> (m: ParamMap<'a>)
        ensures
            m@ == Map::<Seq<char>, Seq<char>>::empty(),
            m.entries() == Seq::<(Seq<char>, Seq<char>)>::empty(),
    {
        assert(pair_texts(Seq::<(&str, &str)>::empty()) =~= Seq::<(Seq<char>, Seq<char>)>::empty());
        ParamMap { pairs: Vec::new() }
    }

    fn insert(&mut self, key: &'a str, value: &'a str)
        ensures
            final(self)@ == old(self)@.insert(key@, value@),
            final(self).entries() == old(self).entries().push((key@, value@)),
    {
        self.pairs.push((key, value));
        assert(self.pairs@.drop_last() =~= old(self).pairs@);
        assert(self.entries() =~= old(self).entries().push((key@, value@)));
    }

    /// The value given for `key`, if one was.
    pub fn get(&self, key: &str) -> (r: Option<&'a str>)
        ensures
            match r {
                Some(v) => self@.dom().contains(key@) && self@[key@] == v@,
                None => !self@.dom().contains(key@),
            },
    {
        let mut i: usize = self.pairs.len();
        while i > 0
            invariant
                i <= self.pairs.len(),
                forall|l: int| i <= l < self.pairs@.len() ==> (#[trigger] self.pairs@[l]).0@ != key@,
            decreases i,
        {
            let (k, v) = self.pairs[i - 1];
            if same_text(k, key) {
                proof { lemma_pairs_map_last(self.pairs@, key@, i - 1); }
                return Some(v);
            }
            i = i - 1;
        }
        proof { lemma_pairs_map_absent(self.pairs@, key@); }
        None
    }

    /// The pairs in the order given; collecting them into a map, a later
    /// pair overriding an earlier one, gives this map.
    pub fn pairs(&self) -> (v: Vec<(&'a str, &'a str)>)
        ensures
            pair_texts(v@) == self.entries(),
            pairs_map(v@) == self@,
    {
        let mut v: Vec<(&'a str, &'a str)> = Vec::new();
        let mut i: usize = 0;
        while i < self.pairs.len()
            invariant
                i <= self.pairs.len(),
                v@ == self.pairs@.take(i as int),
            decreases self.pairs.len() - i,
        {
            v.push(self.pairs[i]);
            i = i + 1;
            assert(v@ =~= self.pairs@.take(i as int));
        }
        assert(v@ =~= self.pairs@);
        v
    }
}

/// The key and value of a `key=value` parameter: it holds exactly one `=`,
/// and its value is not `0` (a port or a period of 0 is refused).
pub open spec fn pair_of(p: Seq<char>) -> Option<(Seq<char>, Seq<char>)> {
    let parts = split(p, seq!['=']);
    if parts.len() == 2 && parts[1] != seq!['0'] {
        Some((parts[0], parts[1]))
    } else {
        None
    }
}

/// The map of the parameters `ps`, or `None` when one of them is not a
/// well-formed pair; a later key overrides an earlier one.
pub open spec fn param_map(ps: Seq<Seq<char>>) -> Option<Map<Seq<char>, Seq<char>>>
    decreases ps.len(),
{
    if ps.len() == 0 {
        Some(Map::empty())
    } else {
        match (param_map(ps.drop_last()), pair_of(ps.last())) {
            (Some(m), Some(kv)) => Some(m.insert(kv.0, kv.1)),
            _ => None,
        }
    }
}

/// The key and value of each of the well-formed parameters `ps`, in order.
pub open spec fn param_pairs(ps: Seq<Seq<char>>) -> Seq<(Seq<char>, Seq<char>)> {
    Seq::new(ps.len(), |i: int| pair_of(ps[i]).unwrap())
}

/// The texts of the string slices `v`.
pub open spec fn texts(v: Seq<&str>) -> Seq<Seq<char>> {
    Seq::new(v.len(), |i: int| v[i]@)
}

proof fn lemma_param_map_refused(ps: Seq<Seq<char>>, j: int)
    requires
        0 <= j <= ps.len(),
        param_map(ps.take(j)) is None,
    ensures
        param_map(ps) is None,
    decreases ps.len() - j,
{
    if j < ps.len() {
        assert(ps.take(j + 1).drop_last() =~= ps.take(j));
        lemma_param_map_refused(ps, j + 1);
    } else {
        assert(ps.take(j) =~= ps);
    }
}

/// Reads each parameter as `key=value` into a map; `None` if one of them has
/// no `=`, more than one, or the value `0`.
pub fn param_map_maker<'a>(params: Vec<&'a str>) -> (r: Option<ParamMap<'a>>)
    ensures
        match r {
            Some(m) => param_map(texts(params@)) == Some(m@) && m.entries() == param_pairs(
                texts(params@),
            ),
            None => param_map(texts(params@)) is None,
        },
{
    let ghost ps = texts(params@);
    let mut m = ParamMap::new();
    let mut i: usize = 0;
    assert(ps.take(0) =~= Seq::<Seq<char>>::empty());
    assert(param_pairs(ps.take(0)) =~= Seq::<(Seq<char>, Seq<char>)>::empty());
    while i < params.len()
        invariant
            ps == texts(params@),
            i <= params.len(),
            param_map(ps.take(i as int)) == Some(m@),
            m.entries() == param_pairs(ps.take(i as int)),
        decreases params.len() - i,
    {
        let p = params[i];
        assert(ps.take(i + 1).drop_last() =~= ps.take(i as int));
        assert(ps.take(i + 1).last() == p@);
        proof {
            reveal_strlit("=");
            reveal_strlit("0");
            assert("="@ =~= seq!['=']);
            assert("0"@ =~= seq!['0']);
        }
        let parts = split_text(p, "=");
        if parts.len() == 2 && !same_text(parts[1], "0") {
            m.insert(parts[0], parts[1]);
            assert(pair_of(p@) == Some((parts@[0]@, parts@[1]@)));
            assert(param_pairs(ps.take(i + 1)) =~= param_pairs(ps.take(i as int)).push(
                (parts@[0]@, parts@[1]@),
            ));
        } else {
            proof { lemma_param_map_refused(ps, i + 1); }
            return None;
        }
        i = i + 1;
    }
    assert(ps.take(params.len() as int) =~= ps);
    Some(m)
}

// ---------------------------------------------------------------------------
// The startup command
// ---------------------------------------------------------------------------

/// Gossip period in seconds, own port, and the text of the address of a node
/// to join, its quotes removed. Reading that text as a socket address is left
/// to the caller (std's socket address parser belongs to `std::net`), which
/// completes the command with `resolve_connect`.
pub type ParsedCommand = (u64, u16, Option<String>);

/// The meaning of a `ParsedCommand`, the address to join kept as text.
pub type CommandMeaning = (u64, u16, Option<Seq<char>>);

/// Gossip period in seconds, own port, and the address of a node to join.
pub type StartupCommand = (u64, u16, Option<PeerAddr>);

pub open spec fn period_key() -> Seq<char> {
    seq!['p', 'e', 'r', 'i', 'o', 'd']
}

pub open spec fn port_key() -> Seq<char> {
    seq!['p', 'o', 'r', 't']
}

pub open spec fn connect_key() -> Seq<char> {
    seq!['c', 'o', 'n', 'n', 'e', 'c', 't']
}

/// The program name that a startup command begins with.
pub open spec fn program_name() -> Seq<char> {
    seq!['.', '/', 'p', 'e', 'e', 'r']
}

/// The separator between the program name and the parameters.
pub open spec fn option_separator() -> Seq<char> {
    seq![' ', '-', '-']
}

/// The number given for `key` in `m`, if any, read as an unsigned number not above `max`.
pub open spec fn number_param(m: Map<Seq<char>, Seq<char>>, key: Seq<char>, max: int) -> Option<int> {
    if m.dom().contains(key) {
        parse_unsigned(m[key], max)
    } else {
        None
    }
}

/// The period and the port that `m` gives: both present, both numbers in
/// range, and neither 0 (a period or a port of 0 is refused however it is written).
pub open spec fn period_and_port(m: Map<Seq<char>, Seq<char>>) -> Option<(u64, u16)> {
    match (number_param(m, period_key(), u64::MAX as int), number_param(m, port_key(), u16::MAX as int)) {
        (Some(period), Some(port)) => if period != 0 && port != 0 {
            Some((period as u64, port as u16))
        } else {
            None
        },
        _ => None,
    }
}

/// What two parameters mean: a period and a port.
pub open spec fn two_params_meaning(ps: Seq<Seq<char>>) -> Option<CommandMeaning> {
    match param_map(ps) {
        Some(m) => match period_and_port(m) {
            Some(pp) => Some((pp.0, pp.1, None)),
            None => None,
        },
        None => None,
    }
}

/// What three parameters mean: a period, a port and the text of the address
/// of a node to join, its quotes removed.
pub open spec fn three_params_meaning(ps: Seq<Seq<char>>) -> Option<CommandMeaning> {
    match param_map(ps) {
        Some(m) => match period_and_port(m) {
            Some(pp) => if m.dom().contains(connect_key()) {
                Some((pp.0, pp.1, Some(without_char(m[connect_key()], '"'))))
            } else {
                None
            },
            None => None,
        },
        None => None,
    }
}

/// What a whole startup command means: the program name, then two or three
/// parameters, each after ` --`.
pub open spec fn command_meaning(s: Seq<char>) -> Option<CommandMeaning> {
    let ps = split(s, option_separator());
    if ps.len() > 0 && ps[0] == program_name() {
        if ps.len() == 4 {
            three_params_meaning(ps.drop_first())
        } else if ps.len() == 3 {
            two_params_meaning(ps.drop_first())
        } else {
            None
        }
    } else {
        None
    }
}

/// An accepted command never has a period or a port of 0.
pub open spec fn nonzero_numbers(r: Option<ParsedCommand>) -> bool {
    r matches Some(c) ==> c.0 != 0 && c.1 != 0
}

/// The meaning of a result of the reading functions.
pub open spec fn result_view(r: Option<ParsedCommand>) -> Option<CommandMeaning> {
    match r {
        Some(c) => Some((c.0, c.1, match c.2 {
            Some(t) => Some(t@),
            None => None,
        })),
        None => None,
    }
}

/// The startup command that `cmd` gives once its address text, if it has
/// one, has been read as the socket address `connect` (`None` when the text
/// is no socket address).
pub open spec fn resolved(cmd: CommandMeaning, connect: Option<PeerAddr>) -> Option<StartupCommand> {
    match cmd.2 {
        None => Some((cmd.0, cmd.1, None)),
        Some(_) => match connect {
            Some(a) => Some((cmd.0, cmd.1, Some(a))),
            None => None,
        },
    }
}

fn number_value(m: &ParamMap, key: &str, max: u64) -> (r: Option<u64>)
    ensures
        match r {
            Some(v) => number_param(m@, key@, max as int) == Some(v as int),
            None => number_param(m@, key@, max as int) is None,
        },
{
    match m.get(key) {
        Some(text) => parse_decimal(text, max),
        None => None,
    }
}

fn period_and_port_of(m: &ParamMap) -> (r: Option<(u64, u16)>)
    ensures
        r == period_and_port(m@),
        r matches Some(pp) ==> pp.0 != 0 && pp.1 != 0,
{
    proof {
        reveal_strlit("period");
        reveal_strlit("port");
        assert("period"@ =~= period_key());
        assert("port"@ =~= port_key());
    }
    let period = number_value(m, "period", u64::MAX);
    let port = number_value(m, "port", 65535);
    match (period, port) {
        (Some(period), Some(port)) => if period != 0 && port != 0 {
            Some((period, port as u16))
        } else {
            None
        },
        _ => None,
    }
}

/// Reads two parameters: a period and a port.
pub fn two_argument_parse(params: Vec<&str>) -> (r: Option<ParsedCommand>)
    ensures
        result_view(r) == two_params_meaning(texts(params@)),
        nonzero_numbers(r),
{
    match param_map_maker(params) {
        Some(m) => match period_and_port_of(&m) {
            Some((period, port)) => Some((period, port, None)),
            None => None,
        },
        None => None,
    }
}

/// Reads three parameters: a period, a port and the address of a node to
/// join, whose quotes are removed.
pub fn three_argument_parse(params: Vec<&str>) -> (r: Option<ParsedCommand>)
    ensures
        result_view(r) == three_params_meaning(texts(params@)),
        nonzero_numbers(r),
{
    proof {
        reveal_strlit("connect");
        assert("connect"@ =~= connect_key());
    }
    match param_map_maker(params) {
        Some(m) => match (period_and_port_of(&m), m.get("connect")) {
            (Some((period, port)), Some(text)) => Some((period, port, Some(remove_char(text, '"')))),
            _ => None,
        },
        None => None,
    }
}

/// Completes a read command once the text of its address to join has been
/// read as a socket address: `connect` is what reading `cmd.2` gave, `None`
/// when the text is no socket address. A command with such an address is
/// refused; a command without an address to join ignores `connect`.
pub fn resolve_connect(cmd: ParsedCommand, connect: Option<PeerAddr>) -> (r: Option<StartupCommand>)
    ensures
        r == resolved(result_view(Some(cmd)).unwrap(), connect),
        cmd.2 is None ==> r == Some((cmd.0, cmd.1, None::<PeerAddr>)),
        cmd.2 is Some ==> match connect {
            Some(a) => r == Some((cmd.0, cmd.1, Some(a))),
            None => r is None,
        },
{
    let (period, port, text) = cmd;
    match text {
        None => Some((period, port, None)),
        Some(_) => match connect {
            Some(a) => Some((period, port, Some(a))),
            None => None,
        },
    }
}

/// Reads a whole startup command.
pub fn figure_out_input(input: &str) -> (r: Option<ParsedCommand>)
    ensures
        result_view(r) == command_meaning(input@),
        nonzero_numbers(r),
{
    proof {
        reveal_strlit(" --");
        reveal_strlit("./peer");
        assert(" --"@ =~= option_separator());
        assert("./peer"@ =~= program_name());
    }
    let mut pieces = split_text(input, " --");
    let ghost ps = split(input@, option_separator());
    assert(texts(pieces@) =~= ps);
    if pieces.len() > 0 {
        let first = pieces.remove(0);
        assert(texts(pieces@) =~= ps.drop_first());
        let is_program = same_text(first, "./peer");
        if is_program && pieces.len() == 3 {
            three_argument_parse(pieces)
        } else if is_program && pieces.len() == 2 {
            two_argument_parse(pieces)
        } else {
            None
        }
    } else {
        None
    }
}

/// Reads a line typed by the user: the startup command with white space
/// around it.
pub fn command_from_line(line: &str) -> (r: Option<ParsedCommand>)
    ensures
        result_view(r) == command_meaning(trimmed(line@)),
        nonzero_numbers(r),
{
    figure_out_input(trim_text(line))
}

// ---------------------------------------------------------------------------
// What a well-formed command means
// ---------------------------------------------------------------------------

/// The parameter text `key=value`.
pub open spec fn param_text(key: Seq<char>, value: Seq<char>) -> Seq<char> {
    key + seq!['='] + value
}

/// `./peer --period=<period> --port=<port>`, the numbers written the usual way.
pub open spec fn two_param_command(period: u64, port: u16) -> Seq<char> {
    program_name() + option_separator() + param_text(period_key(), decimal(period as nat))
        + option_separator() + param_text(port_key(), decimal(port as nat))
}

/// `./peer --period=<period> --port=<port> --connect=<connect>`, the numbers
/// written the usual way.
pub open spec fn three_param_command(period: u64, port: u16, connect: Seq<char>) -> Seq<char> {
    two_param_command(period, port) + option_separator() + param_text(connect_key(), connect)
}

proof fn lemma_pair_of(key: Seq<char>, value: Seq<char>)
    requires
        free_of(key, '='),
        free_of(value, '='),
    ensures
        pair_of(param_text(key, value)) == if value == seq!['0'] {
            None
        } else {
            Some((key, value))
        },
{
    lemma_split_front(key, seq!['='], value);
    lemma_split_single(value, seq!['=']);
}

proof fn lemma_number_text(n: nat)
    ensures
        free_of(decimal(n), ' '),
        free_of(decimal(n), '='),
        decimal(n) == seq!['0'] <==> n == 0,
{
    lemma_decimal_free_of(n, ' ');
    lemma_decimal_free_of(n, '=');
    lemma_decimal(n);
}

proof fn lemma_param_text_free(key: Seq<char>, value: Seq<char>)
    requires
        free_of(key, ' '),
        free_of(value, ' '),
    ensures
        free_of(param_text(key, value), ' '),
{
    assert(free_of(seq!['='], ' '));
    lemma_free_of_concat(key, seq!['='], ' ');
    lemma_free_of_concat(key + seq!['='], value, ' ');
}

proof fn lemma_two_params(b: Seq<char>, c: Seq<char>)
    ensures
        param_map(seq![b, c]) == match (pair_of(b), pair_of(c)) {
            (Some(x), Some(y)) => Some(Map::<Seq<char>, Seq<char>>::empty().insert(x.0, x.1).insert(y.0, y.1)),
            _ => None,
        },
{
    assert(seq![b, c].drop_last() =~= seq![b]);
    assert(seq![b].drop_last() =~= Seq::<Seq<char>>::empty());
    reveal_with_fuel(param_map, 3);
}

proof fn lemma_three_params(b: Seq<char>, c: Seq<char>, d: Seq<char>)
    ensures
        param_map(seq![b, c, d]) == match (pair_of(b), pair_of(c), pair_of(d)) {
            (Some(x), Some(y), Some(z)) => Some(
                Map::<Seq<char>, Seq<char>>::empty().insert(x.0, x.1).insert(y.0, y.1).insert(z.0, z.1),
            ),
            _ => None,
        },
{
    assert(seq![b, c, d].drop_last() =~= seq![b, c]);
    lemma_two_params(b, c);
}

/// A startup command with a period and a port, written the usual way, is
/// accepted exactly when neither number is 0, and then gives those numbers
/// and no node to join.
pub proof fn law_two_param_command(period: u64, port: u16)
    ensures
        command_meaning(two_param_command(period, port)) == if period == 0 || port == 0 {
            None::<CommandMeaning>
        } else {
            Some((period, port, None::<Seq<char>>))
        },
{
    let sep = option_separator();
    let dp = decimal(period as nat);
    let dq = decimal(port as nat);
    let b = param_text(period_key(), dp);
    let c = param_text(port_key(), dq);
    lemma_number_text(period as nat);
    lemma_number_text(port as nat);
    assert(free_of(program_name(), ' '));
    assert(free_of(period_key(), ' ') && free_of(period_key(), '='));
    assert(free_of(port_key(), ' ') && free_of(port_key(), '='));
    lemma_param_text_free(period_key(), dp);
    lemma_param_text_free(port_key(), dq);
    assert(two_param_command(period, port) =~= program_name() + sep + (b + sep + c));
    lemma_split_front(program_name(), sep, b + sep + c);
    lemma_split_front(b, sep, c);
    lemma_split_single(c, sep);
    let ps = split(two_param_command(period, port), sep);
    assert(ps =~= seq![program_name(), b, c]);
    assert(ps.drop_first() =~= seq![b, c]);
    lemma_pair_of(period_key(), dp);
    lemma_pair_of(port_key(), dq);
    lemma_two_params(b, c);
    if period != 0 && port != 0 {
        let m = Map::<Seq<char>, Seq<char>>::empty().insert(period_key(), dp).insert(port_key(), dq);
        assert(period_key() != port_key());
        assert(m[period_key()] == dp);
        lemma_parse_decimal(period as nat, u64::MAX as int);
        lemma_parse_decimal(port as nat, u16::MAX as int);
    }
}

/// A startup command with a period, a port and a node to join, written the
/// usual way, is accepted exactly when neither number is 0, and then gives
/// those numbers and the address text without its quotes; this holds for
/// every address text without space or `=` that is not `0`.
pub proof fn law_three_param_command(period: u64, port: u16, connect: Seq<char>)
    requires
        free_of(connect, ' '),
        free_of(connect, '='),
        connect != seq!['0'],
    ensures
        command_meaning(three_param_command(period, port, connect)) == if period == 0 || port
            == 0 {
            None::<CommandMeaning>
        } else {
            Some((period, port, Some(without_char(connect, '"'))))
        },
{
    let sep = option_separator();
    let dp = decimal(period as nat);
    let dq = decimal(port as nat);
    let b = param_text(period_key(), dp);
    let c = param_text(port_key(), dq);
    let d = param_text(connect_key(), connect);
    lemma_number_text(period as nat);
    lemma_number_text(port as nat);
    assert(free_of(program_name(), ' '));
    assert(free_of(period_key(), ' ') && free_of(period_key(), '='));
    assert(free_of(port_key(), ' ') && free_of(port_key(), '='));
    assert(free_of(connect_key(), ' ') && free_of(connect_key(), '='));
    lemma_param_text_free(period_key(), dp);
    lemma_param_text_free(port_key(), dq);
    lemma_param_text_free(connect_key(), connect);
    assert(three_param_command(period, port, connect) =~= program_name() + sep + (b + sep + (c
        + sep + d)));
    lemma_split_front(program_name(), sep, b + sep + (c + sep + d));
    lemma_split_front(b, sep, c + sep + d);
    lemma_split_front(c, sep, d);
    lemma_split_single(d, sep);
    let ps = split(three_param_command(period, port, connect), sep);
    assert(ps =~= seq![program_name(), b, c, d]);
    assert(ps.drop_first() =~= seq![b, c, d]);
    lemma_pair_of(period_key(), dp);
    lemma_pair_of(port_key(), dq);
    lemma_pair_of(connect_key(), connect);
    lemma_three_params(b, c, d);
    if period != 0 && port != 0 {
        assert(period_key() != port_key());
        assert(period_key() != connect_key());
        assert(port_key() != connect_key());
        lemma_parse_decimal(period as nat, u64::MAX as int);
        lemma_parse_decimal(port as nat, u16::MAX as int);
    }
}

proof fn lemma_param_map_concat(a: Seq<Seq<char>>, b: Seq<Seq<char>>)
    ensures
        param_map(a + b) == match (param_map(a), param_map(b)) {
            (Some(ma), Some(mb)) => Some(ma.union_prefer_right(mb)),
            _ => None,
        },
    decreases b.len(),
{
    if b.len() == 0 {
        assert(a + b =~= a);
        if let Some(ma) = param_map(a) {
            assert(ma.union_prefer_right(Map::empty()) =~= ma);
        }
    } else {
        let b1 = b.drop_last();
        lemma_param_map_concat(a, b1);
        assert((a + b).drop_last() =~= a + b1);
        assert((a + b).last() == b.last());
        match (param_map(a), param_map(b1), pair_of(b.last())) {
            (Some(ma), Some(mb), Some(kv)) => {
                assert(ma.union_prefer_right(mb).insert(kv.0, kv.1) =~= ma.union_prefer_right(
                    mb.insert(kv.0, kv.1),
                ));
            },
            _ => {},
        }
    }
}

/// Reading the parameters `a` followed by `b` refuses exactly when reading `a`
/// or reading `b` refuses, and otherwise gives the map of `a` extended by that
/// of `b`, whose values win on a key both give.
pub proof fn law_param_map_concat(a: Seq<&str>, b: Seq<&str>)
    ensures
        param_map(texts(a + b)) == match (param_map(texts(a)), param_map(texts(b))) {
            (Some(ma), Some(mb)) => Some(ma.union_prefer_right(mb)),
            _ => None,
        },
{
    assert(texts(a + b) =~= texts(a) + texts(b));
    lemma_param_map_concat(texts(a), texts(b));
}

/// A line holding a startup command with a period and a port, written the
/// usual way, with white space only around it, means what the command means.
pub proof fn law_two_param_line(period: u64, port: u16, pre: Seq<char>, post: Seq<char>)
    requires
        all_white_space(pre),
        all_white_space(post),
    ensures
        command_meaning(trimmed(pre + two_param_command(period, port) + post)) == if period
            == 0 || port == 0 {
            None::<CommandMeaning>
        } else {
            Some((period, port, None::<Seq<char>>))
        },
{
    let c = two_param_command(period, port);
    lemma_decimal(port as nat);
    let dq = decimal(port as nat);
    assert(c[0] == '.');
    assert(c.last() == dq.last());
    assert(is_digit(dq[dq.len() - 1]));
    law_trimmed(pre, c, post);
    law_two_param_command(period, port);
}

/// A line holding a startup command with a period, a port and a node to join,
/// written the usual way, with white space only around it, means what the
/// command means.
pub proof fn law_three_param_line(
    period: u64,
    port: u16,
    connect: Seq<char>,
    pre: Seq<char>,
    post: Seq<char>,
)
    requires
        free_of(connect, ' '),
        free_of(connect, '='),
        connect != seq!['0'],
        connect.len() > 0 ==> !white_space(connect.last()),
        all_white_space(pre),
        all_white_space(post),
    ensures
        command_meaning(trimmed(pre + three_param_command(period, port, connect) + post))
            == if period == 0 || port == 0 {
            None::<CommandMeaning>
        } else {
            Some((period, port, Some(without_char(connect, '"'))))
        },
{
    let c = three_param_command(period, port, connect);
    assert(c[0] == '.');
    if connect.len() > 0 {
        assert(c.last() == connect.last());
    } else {
        assert(c.last() == '=');
    }
    law_trimmed(pre, c, post);
    law_three_param_command(period, port, connect);
}

// ---------------------------------------------------------------------------
// The order of the parameters does not matter
// ---------------------------------------------------------------------------

/// The three parameter texts `period=<period>`, `port=<port>` and
/// `connect=<connect>`, the numbers written the usual way.
pub open spec fn three_param_texts(period: u64, port: u16, connect: Seq<char>) -> Seq<Seq<char>> {
    seq![
        param_text(period_key(), decimal(period as nat)),
        param_text(port_key(), decimal(port as nat)),
        param_text(connect_key(), connect),
    ]
}

/// Whether `i`, `j`, `k` list the positions 0, 1, 2 in some order.
pub open spec fn is_order(i: int, j: int, k: int) -> bool {
    0 <= i < 3 && 0 <= j < 3 && 0 <= k < 3 && i != j && j != k && i != k
}

/// Three parameters `period`, `port` and `connect`, given in any order, mean
/// the period and the port written there (refused when one is 0) and the
/// address text without its quotes: each number is read from the parameter
/// with its key, wherever that parameter stands.
pub proof fn law_three_params_any_order(
    period: u64,
    port: u16,
    connect: Seq<char>,
    i: int,
    j: int,
    k: int,
)
    requires
        free_of(connect, '='),
        connect != seq!['0'],
        is_order(i, j, k),
    ensures
        ({
            let t = three_param_texts(period, port, connect);
            three_params_meaning(seq![t[i], t[j], t[k]]) == if period == 0 || port == 0 {
                None::<CommandMeaning>
            } else {
                Some((period, port, Some(without_char(connect, '"'))))
            }
        }),
{
    let t = three_param_texts(period, port, connect);
    let dp = decimal(period as nat);
    let dq = decimal(port as nat);
    lemma_number_text(period as nat);
    lemma_number_text(port as nat);
    assert(free_of(period_key(), '='));
    assert(free_of(port_key(), '='));
    assert(free_of(connect_key(), '='));
    lemma_pair_of(period_key(), dp);
    lemma_pair_of(port_key(), dq);
    lemma_pair_of(connect_key(), connect);
    lemma_three_params(t[i], t[j], t[k]);
    assert(period_key() != port_key());
    assert(period_key() != connect_key());
    assert(port_key() != connect_key());
    if period != 0 && port != 0 {
        lemma_parse_decimal(period as nat, u64::MAX as int);
        lemma_parse_decimal(port as nat, u16::MAX as int);
        let kv = |x: int| pair_of(t[x]).unwrap();
        let m = Map::<Seq<char>, Seq<char>>::empty().insert(kv(i).0, kv(i).1).insert(kv(j).0, kv(j).1).insert(
            kv(k).0,
            kv(k).1,
        );
        assert(m.dom().contains(period_key()) && m[period_key()] == dp);
        assert(m.dom().contains(port_key()) && m[port_key()] == dq);
        assert(m.dom().contains(connect_key()) && m[connect_key()] == connect);
    }
}

/// A startup command `./peer` with the parameters `period`, `port` and
/// `connect` in any order, written the usual way, means the same as with them
/// in the order period, port, connect: the numbers read by their keys (refused
/// when one is 0) and the address text without its quotes.
pub proof fn law_three_param_command_any_order(
    period: u64,
    port: u16,
    connect: Seq<char>,
    i: int,
    j: int,
    k: int,
)
    requires
        free_of(connect, ' '),
        free_of(connect, '='),
        connect != seq!['0'],
        is_order(i, j, k),
    ensures
        ({
            let t = three_param_texts(period, port, connect);
            let sep = option_separator();
            command_meaning(program_name() + sep + t[i] + sep + t[j] + sep + t[k]) == if period
                == 0 || port == 0 {
                None::<CommandMeaning>
            } else {
                Some((period, port, Some(without_char(connect, '"'))))
            }
        }),
{
    let t = three_param_texts(period, port, connect);
    let sep = option_separator();
    let (a, b, c) = (t[i], t[j], t[k]);
    lemma_number_text(period as nat);
    lemma_number_text(port as nat);
    assert(free_of(program_name(), ' '));
    assert(free_of(period_key(), ' '));
    assert(free_of(port_key(), ' '));
    assert(free_of(connect_key(), ' '));
    lemma_param_text_free(period_key(), decimal(period as nat));
    lemma_param_text_free(port_key(), decimal(port as nat));
    lemma_param_text_free(connect_key(), connect);
    assert(free_of(a, ' ') && free_of(b, ' ') && free_of(c, ' '));
    let text = program_name() + sep + a + sep + b + sep + c;
    assert(text =~= program_name() + sep + (a + sep + (b + sep + c)));
    lemma_split_front(program_name(), sep, a + sep + (b + sep + c));
    lemma_split_front(a, sep, b + sep + c);
    lemma_split_front(b, sep, c);
    lemma_split_single(c, sep);
    let ps = split(text, sep);
    assert(ps =~= seq![program_name(), a, b, c]);
    assert(ps.drop_first() =~= seq![a, b, c]);
    law_three_params_any_order(period, port, connect, i, j, k);
}

/// Completing a command that names an address to join with the socket
/// address `a` read from that text keeps the period, the port and `a`, whatever
/// they are; completing it with no address refuses it; a command without an
/// address to join is completed as it stands.
pub proof fn law_resolve_keeps_address(cmd: CommandMeaning, a: PeerAddr)
    ensures
        cmd.2 is Some ==> resolved(cmd, Some(a)) == Some((cmd.0, cmd.1, Some(a))),
        cmd.2 is Some ==> resolved(cmd, None) is None,
        cmd.2 is None ==> resolved(cmd, Some(a)) == Some((cmd.0, cmd.1, None::<PeerAddr>)),
        cmd.2 is None ==> resolved(cmd, None) == Some((cmd.0, cmd.1, None::<PeerAddr>)),
{
}

/// A startup command with the parameters `period`, `port` and `connect` in any
/// order, completed with the socket address `a` read from its address text,
/// starts a node with that period and port that joins `a`.
pub proof fn law_command_joins_address(
    period: u64,
    port: u16,
    connect: Seq<char>,
    i: int,
    j: int,
    k: int,
    a: PeerAddr,
)
    requires
        free_of(connect, ' '),
        free_of(connect, '='),
        connect != seq!['0'],
        is_order(i, j, k),
        period != 0,
        port != 0,
    ensures
        ({
            let t = three_param_texts(period, port, connect);
            let sep = option_separator();
            let text = program_name() + sep + t[i] + sep + t[j] + sep + t[k];
            command_meaning(text) matches Some(cmd) && resolved(cmd, Some(a)) == Some(
                (period, port, Some(a)),
            )
        }),
{
    law_three_param_command_any_order(period, port, connect, i, j, k);
}

/// A startup command `./peer` with the parameters `port` before `period`,
/// written the usual way, means the same as with `period` first: the numbers
/// are read by their keys, and the command is refused when one is 0.
pub proof fn law_two_param_command_port_first(period: u64, port: u16)
    ensures
        ({
            let sep = option_separator();
            let b = param_text(port_key(), decimal(port as nat));
            let c = param_text(period_key(), decimal(period as nat));
            command_meaning(program_name() + sep + b + sep + c) == if period == 0 || port == 0 {
                None::<CommandMeaning>
            } else {
                Some((period, port, None::<Seq<char>>))
            }
        }),
{
    let sep = option_separator();
    let dp = decimal(period as nat);
    let dq = decimal(port as nat);
    let b = param_text(port_key(), dq);
    let c = param_text(period_key(), dp);
    lemma_number_text(period as nat);
    lemma_number_text(port as nat);
    assert(free_of(program_name(), ' '));
    assert(free_of(period_key(), ' ') && free_of(period_key(), '='));
    assert(free_of(port_key(), ' ') && free_of(port_key(), '='));
    lemma_param_text_free(period_key(), dp);
    lemma_param_text_free(port_key(), dq);
    let text = program_name() + sep + b + sep + c;
    assert(text =~= program_name() + sep + (b + sep + c));
    lemma_split_front(program_name(), sep, b + sep + c);
    lemma_split_front(b, sep, c);
    lemma_split_single(c, sep);
    let ps = split(text, sep);
    assert(ps =~= seq![program_name(), b, c]);
    assert(ps.drop_first() =~= seq![b, c]);
    lemma_pair_of(period_key(), dp);
    lemma_pair_of(port_key(), dq);
    lemma_two_params(b, c);
    if period != 0 && port != 0 {
        let m = Map::<Seq<char>, Seq<char>>::empty().insert(port_key(), dq).insert(period_key(), dp);
        assert(period_key() != port_key());
        assert(m[port_key()] == dq);
        lemma_parse_decimal(period as nat, u64::MAX as int);
        lemma_parse_decimal(port as nat, u16::MAX as int);
    }
}

} // verus!
