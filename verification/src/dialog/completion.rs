//! Completion: what is offered for what the user has written so far.
//!
//! Members of the scripting interface are offered behind `r.` or `rerics.`, those that match
//! best first, in groups.

use crate::dialog;
use crate::outside;
use crate::text;
use crate::winpath;
use vstd::prelude::*;

verus! {

/// A text in specifications.
pub type Txt = Seq<char>;

/// Whether a character can stand in a name.
pub open spec fn is_ident(c: char) -> bool {
    ('a' <= c && c <= 'z') || ('A' <= c && c <= 'Z') || ('0' <= c && c <= '9') || c == '_'
}

/// Where the name starts that ends at `end`.
pub open spec fn ident_start(s: Txt, end: int) -> int
    decreases end,
{
    if 0 < end <= s.len() && is_ident(s[end - 1]) {
        ident_start(s, end - 1)
    } else {
        end
    }
}

/// The name at the end of a text.
pub open spec fn last_ident(s: Txt) -> Txt {
    s.skip(ident_start(s, s.len() as int))
}

/// What stands before the name at the end of a text.
pub open spec fn before_ident(s: Txt) -> Txt {
    s.take(ident_start(s, s.len() as int))
}

/// Whether a name is that of the scripting interface.
pub open spec fn is_root(name: Txt) -> bool {
    name == "r"@ || name == "rerics"@
}

/// What is to be completed: the name behind `r.` or `rerics.`, with the one before it where
/// there are two.
pub open spec fn prefix_of(before: Txt) -> Option<Txt> {
    let ident = last_ident(before);
    match text::unsuffixed(before_ident(before), "."@) {
        None => None,
        Some(head) => {
            let ns = last_ident(head);
            if is_root(ns) {
                Some(ident)
            } else {
                match text::unsuffixed(before_ident(head), "."@) {
                    None => None,
                    Some(head2) => if ns.len() == 0 || !is_root(last_ident(head2)) {
                        None
                    } else {
                        Some(ns + "."@ + ident)
                    },
                }
            }
        },
    }
}

proof fn lemma_ident_start(s: Txt, end: int)
    requires
        0 <= end <= s.len(),
    ensures
        0 <= ident_start(s, end) <= end,
        forall|j: int| ident_start(s, end) <= j < end ==> is_ident(#[trigger] s[j]),
    decreases end,
{
    if end > 0 && is_ident(s[end - 1]) {
        lemma_ident_start(s, end - 1);
    }
}

/// Splits a text before the name at its end.
fn split_ident(s: &str) -> (parts: (String, String))
    ensures
        parts.0@ == before_ident(s@),
        parts.1@ == last_ident(s@),
{
    let chars = text::to_chars(s);
    let mut at: usize = chars.len();
    while at > 0 && ident_char(chars[at - 1])
        invariant
            at <= chars.len(),
            chars@ == s@,
            ident_start(s@, s@.len() as int) == ident_start(s@, at as int),
        decreases at,
    {
        at -= 1;
    }
    let head = text::from_range(&chars, 0, at);
    let ident = text::from_range(&chars, at, chars.len());
    assert(head@ =~= before_ident(s@));
    assert(ident@ =~= last_ident(s@));
    (head, ident)
}

/// Whether a character can stand in a name.
fn ident_char(c: char) -> (yes: bool)
    ensures
        yes == is_ident(c),
{
    ('a' <= c && c <= 'z') || ('A' <= c && c <= 'Z') || ('0' <= c && c <= '9') || c == '_'
}

/// Whether a name is that of the scripting interface.
fn root(name: &str) -> (yes: bool)
    ensures
        yes == is_root(name@),
{
    text::same(name, "r") || text::same(name, "rerics")
}

/// What is to be completed, and how many UTF-16 units it takes.
pub fn completion_prefix(before: &str) -> (prefix: Option<(usize, String)>)
    ensures
        match prefix {
            Some((n, p)) => prefix_of(before@) == Some(p@) && n == winpath::utf16(p@).len(),
            None => prefix_of(before@) is None,
        },
{
    let (head, ident) = split_ident(before);
    let head = match text::strip_suffix(head.as_str(), ".") {
        Some(head) => head,
        None => {
            return None;
        },
    };
    let (head2, ns) = split_ident(head.as_str());
    if root(ns.as_str()) {
        return Some((dialog::utf16_len(ident.as_str()), ident));
    }
    let head2 = match text::strip_suffix(head2.as_str(), ".") {
        Some(head2) => head2,
        None => {
            return None;
        },
    };
    let (_, base) = split_ident(head2.as_str());
    if ns.as_str().is_empty() || !root(base.as_str()) {
        return None;
    }
    let prefix = text::concat3(ns.as_str(), ".", ident.as_str());
    Some((dialog::utf16_len(prefix.as_str()), prefix))
}

/// Whether the characters of `q` occur in `n`, in order.
pub open spec fn is_scattered(q: Txt, n: Txt) -> bool
    decreases n.len(),
{
    if q.len() == 0 {
        true
    } else if n.len() == 0 {
        false
    } else if q[0] == n[0] {
        is_scattered(q.skip(1), n.skip(1))
    } else {
        is_scattered(q, n.skip(1))
    }
}

/// Whether the characters of `q` occur in `n`, in order.
fn scattered(q: &Vec<char>, n: &Vec<char>) -> (yes: bool)
    ensures
        yes == is_scattered(q@, n@),
{
    let mut i: usize = 0;
    let mut j: usize = 0;
    assert(q@.skip(0) =~= q@);
    assert(n@.skip(0) =~= n@);
    while i < q.len() && j < n.len()
        invariant
            i <= q.len(),
            j <= n.len(),
            is_scattered(q@, n@) == is_scattered(q@.skip(i as int), n@.skip(j as int)),
        decreases n.len() - j,
    {
        assert(q@.skip(i as int).skip(1) =~= q@.skip(i + 1));
        assert(n@.skip(j as int).skip(1) =~= n@.skip(j + 1));
        if q[i] == n[j] {
            i += 1;
        }
        j += 1;
    }
    i == q.len()
}

/// Whether the character at a place of a name is an initial: the first behind a dot, or a
/// capital letter.
pub open spec fn is_initial(name: Txt, i: int) -> bool {
    name[i] != '.' && (i == 0 || name[i - 1] == '.' || ('A' <= name[i] && name[i] <= 'Z'))
}

/// The initials in the first `n` characters of a name.
pub open spec fn initials_in(name: Txt, n: int) -> Txt
    decreases n,
{
    if n <= 0 {
        Seq::empty()
    } else if is_initial(name, n - 1) {
        initials_in(name, n - 1).push(name[n - 1])
    } else {
        initials_in(name, n - 1)
    }
}

/// The initials of a name.
pub fn initials(name: &str) -> (s: String)
    ensures
        s@ == initials_in(name@, name@.len() as int),
{
    let chars = text::to_chars(name);
    let mut s = String::new();
    let mut i: usize = 0;
    assert(s@ =~= initials_in(name@, 0));
    while i < chars.len()
        invariant
            i <= chars.len(),
            chars@ == name@,
            s@ == initials_in(name@, i as int),
        decreases chars.len() - i,
    {
        let c = chars[i];
        if c != '.' && (i == 0 || chars[i - 1] == '.' || ('A' <= c && c <= 'Z')) {
            s.push(c);
        }
        i += 1;
    }
    s
}

/// How well a query matches, all of it in lower case: 0 where the name starts with it, 1 where
/// the initials do, 2 where the label holds it, 3 where its characters occur in the name in
/// order. A single character matches too much in that last way, and is not looked for.
pub open spec fn rank_lower(q: Txt, name: Txt, initials: Txt, label: Option<Txt>) -> Option<u8> {
    if text::has_prefix(name, q) {
        Some(0)
    } else if text::has_prefix(initials, q) {
        Some(1)
    } else if label matches Some(l) && text::is_within(l, q) {
        Some(2)
    } else if q.len() >= 2 && is_scattered(q, name) {
        Some(3)
    } else {
        None
    }
}

/// How well a query matches, all of it in lower case.
pub fn rank_of_lower(q: &str, name: &str, initials: &str, label: Option<&str>) -> (rank: Option<u8>)
    ensures
        rank == rank_lower(
            q@,
            name@,
            initials@,
            match label {
                Some(l) => Some(l@),
                None => None,
            },
        ),
{
    if text::starts_with(name, q) {
        return Some(0);
    }
    if text::starts_with(initials, q) {
        return Some(1);
    }
    if let Some(l) = label {
        if text::contains(l, q) {
            return Some(2);
        }
    }
    let chars = text::to_chars(q);
    if chars.len() >= 2 && scattered(&chars, &text::to_chars(name)) {
        return Some(3);
    }
    None
}

/// How well a query matches a member, by its name and its label. Case does not matter, and an
/// empty query matches everything.
pub open spec fn rank_of(query: Txt, name: Txt, label: Option<Txt>) -> Option<u8> {
    if query.len() == 0 {
        Some(0)
    } else {
        rank_lower(
            outside::lowercase_text(query),
            outside::lowercase_text(name),
            outside::lowercase_text(initials_in(name, name.len() as int)),
            match label {
                Some(l) => Some(outside::lowercase_text(l)),
                None => None,
            },
        )
    }
}

/// How well a query matches a member, by its name and its label.
pub fn match_rank(query: &str, name: &str, label: Option<&str>) -> (rank: Option<u8>)
    ensures
        rank == rank_of(
            query@,
            name@,
            match label {
                Some(l) => Some(l@),
                None => None,
            },
        ),
        rank matches Some(r) ==> r <= 3,
{
    if query.is_empty() {
        return Some(0);
    }
    let q = outside::lowercase(query);
    let n = outside::lowercase(name);
    let first = outside::lowercase(initials(name).as_str());
    match label {
        Some(l) => {
            let l = outside::lowercase(l);
            rank_of_lower(q.as_str(), n.as_str(), first.as_str(), Some(l.as_str()))
        },
        None => rank_of_lower(q.as_str(), n.as_str(), first.as_str(), None),
    }
}

/// What is known of a member that is a built-in command.
pub struct Builtin {
    pub label: String,
    pub genre: String,
    /// Where the genre stands among the others.
    pub order: u8,
    /// Its arguments and what it does.
    pub hint: String,
    /// It cannot be called without arguments.
    pub required_args: bool,
}

/// What is known of a member that a script has registered.
pub struct ScriptCommand {
    pub label: Option<String>,
    pub genre: Option<String>,
    /// Where the genre stands among the others.
    pub order: u8,
    pub summary: Option<String>,
}

/// A member of the scripting interface.
pub struct CompletionMember {
    pub name: String,
    /// It is a function.
    pub callable: bool,
    /// How many arguments it is declared with.
    pub arity: u32,
    pub builtin: Option<Builtin>,
    pub script: Option<ScriptCommand>,
}

/// What the scripting engine tells of a member.
pub struct MemberInfo {
    pub name: String,
    pub callable: bool,
    pub arity: u32,
}

/// The members of the scripting interface: what the engine tells of each, and what is known of
/// it as a built-in command or as one of a script.
pub fn completion_members(
    infos: Vec<MemberInfo>,
    builtins: Vec<Option<Builtin>>,
    scripts: Vec<Option<ScriptCommand>>,
) -> (members: Vec<CompletionMember>)
    requires
        builtins@.len() == infos@.len(),
        scripts@.len() == infos@.len(),
    ensures
        members@.len() == infos@.len(),
        forall|i: int|
            0 <= i < infos@.len() ==> {
                let m = #[trigger] members@[i];
                &&& m.name == infos@[i].name
                &&& m.callable == infos@[i].callable
                &&& m.arity == infos@[i].arity
                &&& m.builtin == builtins@[i]
                &&& m.script == scripts@[i]
            },
{
    let ghost (all, known, told) = (infos@, builtins@, scripts@);
    let mut infos = infos;
    let mut builtins = builtins;
    let mut scripts = scripts;
    let mut members: Vec<CompletionMember> = Vec::new();
    while infos.len() > 0
        invariant
            infos@ == all.skip(members@.len() as int),
            builtins@ == known.skip(members@.len() as int),
            scripts@ == told.skip(members@.len() as int),
            members@.len() + infos@.len() == all.len(),
            known.len() == all.len(),
            told.len() == all.len(),
            forall|i: int|
                0 <= i < members@.len() ==> {
                    let m = #[trigger] members@[i];
                    &&& m.name == all[i].name
                    &&& m.callable == all[i].callable
                    &&& m.arity == all[i].arity
                    &&& m.builtin == known[i]
                    &&& m.script == told[i]
                },
        decreases infos.len(),
    {
        let info = infos.remove(0);
        let builtin = builtins.remove(0);
        let script = scripts.remove(0);
        members.push(
            CompletionMember {
                name: info.name,
                callable: info.callable,
                arity: info.arity,
                builtin,
                script,
            },
        );
        assert(infos@ =~= all.skip(members@.len() as int));
        assert(builtins@ =~= known.skip(members@.len() as int));
        assert(scripts@ =~= told.skip(members@.len() as int));
    }
    members
}

/// An argument of a command.
pub struct ArgSpec {
    pub name: String,
    pub required: bool,
    /// The names of the options, where the argument is a set of options.
    pub options: Option<Vec<String>>,
}

/// Each of some names with a question mark.
pub open spec fn questioned(names: Seq<Txt>) -> Seq<Txt> {
    names.map_values(|n: Txt| n + "?"@)
}

/// How an argument is written: its options in braces, or its name; what can be left out has a
/// question mark.
pub open spec fn arg_word(a: ArgSpec) -> Txt {
    match a.options {
        Some(options) => "{"@ + text::joined(questioned(options.deep_view()), ", "@) + "}"@,
        None => if a.required {
            a.name@
        } else {
            a.name@ + "?"@
        },
    }
}

/// The arguments of a command, as they are written behind its name; nothing where it has none.
pub open spec fn signature_of(args: Seq<ArgSpec>) -> Txt {
    if args.len() == 0 {
        Seq::empty()
    } else {
        "("@ + text::joined(args.map_values(|a: ArgSpec| arg_word(a)), ", "@) + ")"@
    }
}

/// The arguments of a command, as they are written behind its name.
pub fn arg_signature(args: &Vec<ArgSpec>) -> (s: String)
    ensures
        s@ == signature_of(args@),
{
    if args.len() == 0 {
        return String::new();
    }
    let mut words: Vec<String> = Vec::new();
    let mut i: usize = 0;
    while i < args.len()
        invariant
            i <= args.len(),
            words@.len() == i,
            forall|j: int| 0 <= j < i ==> (#[trigger] words@[j])@ == arg_word(args@[j]),
        decreases args.len() - i,
    {
        let a = &args[i];
        let word = match &a.options {
            Some(options) => {
                let mut keys: Vec<String> = Vec::new();
                let mut k: usize = 0;
                while k < options.len()
                    invariant
                        k <= options.len(),
                        keys@.len() == k,
                        forall|j: int|
                            0 <= j < k ==> (#[trigger] keys@[j])@ == options@[j]@ + "?"@,
                    decreases options.len() - k,
                {
                    keys.push(text::concat(options[k].as_str(), "?"));
                    k += 1;
                }
                assert(keys.deep_view() =~= questioned(options.deep_view()));
                text::concat3("{", text::join_all(&keys, ", ").as_str(), "}")
            },
            None => if a.required {
                text::copy(a.name.as_str())
            } else {
                text::concat(a.name.as_str(), "?")
            },
        };
        words.push(word);
        i += 1;
    }
    assert(words.deep_view() =~= args@.map_values(|a: ArgSpec| arg_word(a)));
    text::concat3("(", text::join_all(&words, ", ").as_str(), ")")
}

/// What is said of a built-in command: its arguments, if it has any, and what it does.
pub fn meta_hint(args: &Vec<ArgSpec>, summary: &str) -> (hint: String)
    ensures
        hint@ == (if args@.len() == 0 {
            summary@
        } else {
            signature_of(args@) + "  "@ + summary@
        }),
{
    if args.len() == 0 {
        text::copy(summary)
    } else {
        text::concat3(arg_signature(args).as_str(), "  ", summary)
    }
}

/// A row of what is offered.
#[derive(Clone, Debug, PartialEq, Eq)]
pub struct CompletionItem<S = String> {
    pub display: S,
    pub insert: S,
    pub detail: Option<S>,
    /// It can be picked: it is no heading.
    pub selectable: bool,
    /// How many UTF-16 units the caret goes back when it was inserted.
    pub caret_back: u32,
}

impl View for CompletionItem<String> {
    type V = CompletionItem<Txt>;

    open spec fn view(&self) -> CompletionItem<Txt> {
        CompletionItem {
            display: self.display@,
            insert: self.insert@,
            detail: self.detail.deep_view(),
            selectable: self.selectable,
            caret_back: self.caret_back,
        }
    }
}

/// Rows in specifications.
pub open spec fn items_of(items: Seq<CompletionItem>) -> Seq<CompletionItem<Txt>> {
    items.map_values(|i: CompletionItem| i@)
}

/// The heading of a group.
pub open spec fn heading(genre: Txt) -> CompletionItem<Txt> {
    CompletionItem {
        display: "── "@ + genre + " ──"@,
        insert: Seq::empty(),
        detail: None,
        selectable: false,
        caret_back: 0,
    }
}

/// The heading of a group.
fn label(genre: &str) -> (item: CompletionItem)
    ensures
        item@ == heading(genre@),
{
    CompletionItem {
        display: text::concat3("── ", genre, " ──"),
        insert: String::new(),
        detail: None,
        selectable: false,
        caret_back: 0,
    }
}

/// A member that matches: its group, how well it matches, and its row.
pub struct Hit<S = String> {
    pub order: u8,
    pub genre: S,
    pub rank: u8,
    pub item: CompletionItem<S>,
}

impl View for Hit<String> {
    type V = Hit<Txt>;

    open spec fn view(&self) -> Hit<Txt> {
        Hit { order: self.order, genre: self.genre@, rank: self.rank, item: self.item@ }
    }
}

/// Members that match, in specifications.
pub open spec fn hits_of(hits: Seq<Hit>) -> Seq<Hit<Txt>> {
    hits.map_values(|h: Hit| h@)
}

/// The group of what is in no other.
pub const OTHER_GENRE: &'static str = "スクリプト・API";

/// The label of a member, if it has one.
pub open spec fn label_of(m: CompletionMember) -> Option<Txt> {
    match m.builtin {
        Some(b) => Some(b.label@),
        None => match m.script {
            Some(s) => s.label.deep_view(),
            None => None,
        },
    }
}

/// The group of a member, and where it stands among the others.
pub open spec fn group_of(m: CompletionMember) -> (u8, Txt) {
    match (m.builtin, m.script) {
        (Some(b), _) => (b.order, b.genre@),
        (None, Some(s)) => match s.genre {
            Some(g) => (s.order, g@),
            None => (255u8, OTHER_GENRE@),
        },
        (None, None) => (255u8, OTHER_GENRE@),
    }
}

/// What is said of a member.
pub open spec fn detail_of(m: CompletionMember) -> Option<Txt> {
    match m.builtin {
        Some(b) => Some(b.hint@),
        None => match m.script {
            Some(s) => s.summary.deep_view(),
            None => None,
        },
    }
}

/// What a member that matches comes to. A function is inserted with its brackets, and the caret
/// goes between them where it needs arguments.
pub open spec fn hit_of(m: CompletionMember, rank: u8) -> Hit<Txt> {
    let callable = m.callable || m.builtin is Some;
    let has_args = m.arity > 0 || (m.builtin matches Some(b) && b.required_args);
    Hit {
        order: group_of(m).0,
        genre: group_of(m).1,
        rank,
        item: CompletionItem {
            display: m.name@,
            insert: if callable {
                m.name@ + "()"@
            } else {
                m.name@
            },
            detail: detail_of(m),
            selectable: true,
            caret_back: if callable && has_args {
                1
            } else {
                0
            },
        },
    }
}

/// What a member that matches comes to.
fn make_hit(m: &CompletionMember, rank: u8) -> (hit: Hit)
    ensures
        hit@ == hit_of(*m, rank),
{
    let (order, genre) = match &m.builtin {
        Some(b) => (b.order, text::copy(b.genre.as_str())),
        None => match &m.script {
            Some(s) => match &s.genre {
                Some(g) => (s.order, text::copy(g.as_str())),
                None => (255u8, text::copy(OTHER_GENRE)),
            },
            None => (255u8, text::copy(OTHER_GENRE)),
        },
    };
    let detail = match &m.builtin {
        Some(b) => Some(text::copy(b.hint.as_str())),
        None => match &m.script {
            Some(s) => text::copy_option(&s.summary),
            None => None,
        },
    };
    let required = match &m.builtin {
        Some(b) => b.required_args,
        None => false,
    };
    let callable = m.callable || m.builtin.is_some();
    let insert = if callable {
        text::concat(m.name.as_str(), "()")
    } else {
        text::copy(m.name.as_str())
    };
    let caret_back: u32 = if callable && (m.arity > 0 || required) {
        1
    } else {
        0
    };
    Hit {
        order,
        genre,
        rank,
        item: CompletionItem {
            display: text::copy(m.name.as_str()),
            insert,
            detail,
            selectable: true,
            caret_back,
        },
    }
}

/// How often a character occurs.
pub open spec fn count_of(s: Txt, c: char) -> nat
    decreases s.len(),
{
    if s.len() == 0 {
        0
    } else {
        count_of(s.drop_last(), c) + if s.last() == c {
            1nat
        } else {
            0nat
        }
    }
}

/// How often a character occurs.
fn count(s: &str, c: char) -> (n: usize)
    ensures
        n == count_of(s@, c),
{
    let chars = text::to_chars(s);
    let mut n: usize = 0;
    let mut i: usize = 0;
    assert(s@.take(0).len() == 0);
    while i < chars.len()
        invariant
            i <= chars.len(),
            chars@ == s@,
            n == count_of(s@.take(i as int), c),
            n <= i,
        decreases chars.len() - i,
    {
        assert(s@.take(i + 1).drop_last() =~= s@.take(i as int));
        if chars[i] == c {
            n += 1;
        }
        i += 1;
    }
    assert(s@.take(s@.len() as int) =~= s@);
    n
}

/// How well a query matches a member, if it is offered at all: only members that are as deep as
/// the query are.
pub open spec fn member_rank(m: CompletionMember, query: Txt) -> Option<u8> {
    if count_of(m.name@, '.') != count_of(query, '.') {
        None
    } else {
        rank_of(query, m.name@, label_of(m))
    }
}

/// The members among the first `n` that match, in order.
pub open spec fn matching(
    members: Seq<CompletionMember>,
    ranks: Seq<Option<u8>>,
    n: int,
) -> Seq<Hit<Txt>>
    decreases n,
{
    if n <= 0 {
        Seq::empty()
    } else {
        match ranks[n - 1] {
            Some(rank) => matching(members, ranks, n - 1).push(hit_of(members[n - 1], rank)),
            None => matching(members, ranks, n - 1),
        }
    }
}

/// Whether two members are in the same group.
pub open spec fn same_group(a: Hit<Txt>, b: Hit<Txt>) -> bool {
    a.order == b.order && a.genre == b.genre
}

/// How well the best of the first `n` members matches that are in the group of `h`.
pub open spec fn best_of(hits: Seq<Hit<Txt>>, h: Hit<Txt>, n: int) -> u8
    decreases n,
{
    if n <= 0 {
        255
    } else {
        let before = best_of(hits, h, n - 1);
        if same_group(hits[n - 1], h) && hits[n - 1].rank < before {
            hits[n - 1].rank
        } else {
            before
        }
    }
}

/// How well the best member of the group of `h` matches.
pub open spec fn group_best(hits: Seq<Hit<Txt>>, h: Hit<Txt>) -> u8 {
    best_of(hits, h, hits.len() as int)
}

/// Whether there are several groups.
pub open spec fn several_groups(hits: Seq<Hit<Txt>>) -> bool {
    exists|i: int| 0 <= i < hits.len() && !same_group(#[trigger] hits[i], hits[0])
}

/// Whether a text comes before another, by its characters.
pub open spec fn text_before(a: Txt, b: Txt) -> bool
    decreases a.len(),
{
    if b.len() == 0 {
        false
    } else if a.len() == 0 {
        true
    } else if a[0] == b[0] {
        text_before(a.skip(1), b.skip(1))
    } else {
        a[0] < b[0]
    }
}

/// Whether a text comes before another, by its characters.
fn comes_before(a: &Vec<char>, b: &Vec<char>) -> (yes: bool)
    ensures
        yes == text_before(a@, b@),
{
    let mut i: usize = 0;
    assert(a@.skip(0) =~= a@);
    assert(b@.skip(0) =~= b@);
    while i < a.len() && i < b.len()
        invariant
            i <= a.len(),
            i <= b.len(),
            text_before(a@, b@) == text_before(a@.skip(i as int), b@.skip(i as int)),
        decreases a.len() - i,
    {
        if a[i] != b[i] {
            return a[i] < b[i];
        }
        assert(a@.skip(i as int).skip(1) =~= a@.skip(i + 1));
        assert(b@.skip(i as int).skip(1) =~= b@.skip(i + 1));
        i += 1;
    }
    i < b.len()
}

proof fn lemma_text_before_total(a: Txt, b: Txt)
    ensures
        !text_before(a, a),
        a != b ==> (text_before(a, b) || text_before(b, a)),
        !(text_before(a, b) && text_before(b, a)),
    decreases a.len(),
{
    if a.len() > 0 {
        lemma_text_before_total(a.skip(1), a.skip(1));
    }
    if a.len() > 0 && b.len() > 0 && a[0] == b[0] {
        lemma_text_before_total(a.skip(1), b.skip(1));
        if a.skip(1) == b.skip(1) {
            assert(a =~= seq![a[0]] + a.skip(1));
            assert(b =~= seq![b[0]] + b.skip(1));
        }
    }
    if a.len() == 0 && b.len() == 0 {
        assert(a =~= b);
    }
}

proof fn lemma_text_before_transitive(a: Txt, b: Txt, c: Txt)
    requires
        text_before(a, b),
        text_before(b, c),
    ensures
        text_before(a, c),
    decreases a.len(),
{
    if a.len() > 0 && a[0] == b[0] && b[0] == c[0] {
        lemma_text_before_transitive(a.skip(1), b.skip(1), c.skip(1));
    }
}

/// Whether the row of one member comes before that of another: by how well the best of its
/// group matches, by its group, and by how well it matches itself.
pub open spec fn key_before(hits: Seq<Hit<Txt>>, a: Hit<Txt>, b: Hit<Txt>) -> bool {
    let (x, y) = (group_best(hits, a), group_best(hits, b));
    if x != y {
        x < y
    } else if a.order != b.order {
        a.order < b.order
    } else if a.genre != b.genre {
        text_before(a.genre, b.genre)
    } else {
        a.rank < b.rank
    }
}

/// Whether the row of member `i` comes before that of member `j`. Those that are alike stay as
/// they were.
pub open spec fn precedes(hits: Seq<Hit<Txt>>, i: int, j: int) -> bool {
    key_before(hits, hits[i], hits[j]) || (!key_before(hits, hits[j], hits[i]) && i < j)
}

/// Whether `order` says how the members are put: each of them once, one that precedes another
/// before it.
pub open spec fn is_order(hits: Seq<Hit<Txt>>, order: Seq<int>) -> bool {
    &&& order.len() == hits.len()
    &&& forall|i: int| 0 <= i < order.len() ==> 0 <= #[trigger] order[i] < hits.len()
    &&& forall|i: int, j: int|
        0 <= i < j < order.len() ==> precedes(hits, #[trigger] order[i], #[trigger] order[j])
}

/// The rows of the first `n` members, put as `order` says. Where there are several groups, each
/// has its heading.
pub open spec fn rows_of(
    hits: Seq<Hit<Txt>>,
    order: Seq<int>,
    n: int,
    headings: bool,
) -> Seq<CompletionItem<Txt>>
    decreases n,
{
    if n <= 0 {
        Seq::empty()
    } else {
        let h = hits[order[n - 1]];
        let before = rows_of(hits, order, n - 1, headings);
        if headings && (n == 1 || !same_group(hits[order[n - 2]], h)) {
            before.push(heading(h.genre)).push(h.item)
        } else {
            before.push(h.item)
        }
    }
}

/// Whether `items` are the rows of some members.
pub open spec fn are_rows(hits: Seq<Hit<Txt>>, items: Seq<CompletionItem<Txt>>) -> bool {
    exists|order: Seq<int>|
        #[trigger] is_order(hits, order) && items == rows_of(
            hits,
            order,
            order.len() as int,
            several_groups(hits),
        )
}

proof fn lemma_precedes_total(hits: Seq<Hit<Txt>>, i: int, j: int)
    requires
        i != j,
    ensures
        precedes(hits, i, j) || precedes(hits, j, i),
        !(precedes(hits, i, j) && precedes(hits, j, i)),
{
    lemma_text_before_total(hits[i].genre, hits[j].genre);
}

proof fn lemma_precedes_transitive(hits: Seq<Hit<Txt>>, i: int, j: int, k: int)
    requires
        precedes(hits, i, j),
        precedes(hits, j, k),
    ensures
        precedes(hits, i, k),
{
    let (a, b, c) = (hits[i].genre, hits[j].genre, hits[k].genre);
    lemma_text_before_total(a, b);
    lemma_text_before_total(b, c);
    lemma_text_before_total(a, c);
    if text_before(a, b) && text_before(b, c) {
        lemma_text_before_transitive(a, b, c);
    }
    if text_before(c, b) && text_before(b, a) {
        lemma_text_before_transitive(c, b, a);
    }
    if text_before(a, c) && text_before(c, b) {
        lemma_text_before_transitive(a, c, b);
    }
    if text_before(b, a) && text_before(a, c) {
        lemma_text_before_transitive(b, a, c);
    }
    if text_before(b, c) && text_before(c, a) {
        lemma_text_before_transitive(b, c, a);
    }
    if text_before(c, a) && text_before(a, b) {
        lemma_text_before_transitive(c, a, b);
    }
}

/// Whether two members are in the same group.
fn in_same_group(a: &Hit, b: &Hit) -> (yes: bool)
    ensures
        yes == same_group(a@, b@),
{
    a.order == b.order && text::same(a.genre.as_str(), b.genre.as_str())
}

/// How well the best member of the group of member `k` matches.
fn best_in_group(hits: &Vec<Hit>, k: usize) -> (best: u8)
    requires
        k < hits.len(),
    ensures
        best == group_best(hits_of(hits@), hits@[k as int]@),
{
    let ghost all = hits_of(hits@);
    let mut best: u8 = 255;
    let mut i: usize = 0;
    while i < hits.len()
        invariant
            i <= hits.len(),
            k < hits.len(),
            all == hits_of(hits@),
            best == best_of(all, hits@[k as int]@, i as int),
        decreases hits.len() - i,
    {
        assert(all[i as int] == hits@[i as int]@);
        if in_same_group(&hits[i], &hits[k]) && hits[i].rank < best {
            best = hits[i].rank;
        }
        i += 1;
    }
    best
}

/// Whether the row of member `i` comes before that of member `j`, but for their order.
fn key_less(hits: &Vec<Hit>, best: &Vec<u8>, i: usize, j: usize) -> (yes: bool)
    requires
        i < hits.len(),
        j < hits.len(),
        best@.len() == hits@.len(),
        forall|k: int|
            0 <= k < best@.len() ==> #[trigger] best@[k] == group_best(
                hits_of(hits@),
                hits@[k]@,
            ),
    ensures
        yes == key_before(hits_of(hits@), hits@[i as int]@, hits@[j as int]@),
{
    let ghost all = hits_of(hits@);
    assert(best@[i as int] == group_best(all, hits@[i as int]@));
    assert(best@[j as int] == group_best(all, hits@[j as int]@));
    if best[i] != best[j] {
        return best[i] < best[j];
    }
    let a = &hits[i];
    let b = &hits[j];
    if a.order != b.order {
        return a.order < b.order;
    }
    if !text::same(a.genre.as_str(), b.genre.as_str()) {
        return comes_before(
            &text::to_chars(a.genre.as_str()),
            &text::to_chars(b.genre.as_str()),
        );
    }
    a.rank < b.rank
}

/// Places in specifications.
pub open spec fn places_of(order: Seq<usize>) -> Seq<int> {
    order.map_values(|i: usize| i as int)
}

/// How the members are put.
fn put_in_order(hits: &Vec<Hit>) -> (order: Vec<usize>)
    ensures
        is_order(hits_of(hits@), places_of(order@)),
{
    let ghost all = hits_of(hits@);
    let mut best: Vec<u8> = Vec::new();
    let mut b: usize = 0;
    while b < hits.len()
        invariant
            b <= hits.len(),
            best@.len() == b,
            forall|k: int|
                0 <= k < b ==> #[trigger] best@[k] == group_best(hits_of(hits@), hits@[k]@),
        decreases hits.len() - b,
    {
        best.push(best_in_group(hits, b));
        b += 1;
    }
    let mut order: Vec<usize> = Vec::new();
    let mut k: usize = 0;
    while k < hits.len()
        invariant
            k <= hits.len(),
            all == hits_of(hits@),
            best@.len() == hits@.len(),
            forall|i: int|
                0 <= i < best@.len() ==> #[trigger] best@[i] == group_best(
                    hits_of(hits@),
                    hits@[i]@,
                ),
            order@.len() == k,
            forall|i: int| 0 <= i < k ==> 0 <= #[trigger] order@[i] < k,
            forall|i: int, j: int|
                0 <= i < j < k ==> precedes(
                    all,
                    (#[trigger] order@[i]) as int,
                    (#[trigger] order@[j]) as int,
                ),
        decreases hits.len() - k,
    {
        let mut p: usize = 0;
        while p < order.len() && !key_less(hits, &best, k, order[p])
            invariant
                p <= order.len(),
                k < hits.len(),
                all == hits_of(hits@),
                order@.len() == k,
                best@.len() == hits@.len(),
                forall|i: int|
                    0 <= i < best@.len() ==> #[trigger] best@[i] == group_best(
                        hits_of(hits@),
                        hits@[i]@,
                    ),
                forall|i: int| 0 <= i < k ==> 0 <= #[trigger] order@[i] < k,
                forall|i: int|
                    0 <= i < p ==> precedes(all, (#[trigger] order@[i]) as int, k as int),
            decreases order.len() - p,
        {
            assert(all[k as int] == hits@[k as int]@);
            assert(all[order@[p as int] as int] == hits@[order@[p as int] as int]@);
            assert(!precedes(all, k as int, order@[p as int] as int));
            proof {
                lemma_precedes_total(all, k as int, order@[p as int] as int);
            }
            p += 1;
        }
        let ghost before = order@;
        if p < order.len() {
            assert(all[k as int] == hits@[k as int]@);
            assert(all[order@[p as int] as int] == hits@[order@[p as int] as int]@);
            assert(precedes(all, k as int, before[p as int] as int));
        }
        order.insert(p, k);
        assert forall|i: int, j: int| 0 <= i < j < k + 1 implies precedes(
            all,
            (#[trigger] order@[i]) as int,
            (#[trigger] order@[j]) as int,
        ) by {
            if j < p {
                assert(order@[i] == before[i] && order@[j] == before[j]);
            } else if j == p {
                assert(order@[i] == before[i]);
            } else if i < p {
                assert(order@[i] == before[i] && order@[j] == before[j - 1]);
            } else if i == p {
                assert(order@[j] == before[j - 1]);
                if j - 1 != p {
                    assert(precedes(all, before[p as int] as int, before[j - 1] as int));
                    lemma_precedes_transitive(
                        all,
                        k as int,
                        before[p as int] as int,
                        before[j - 1] as int,
                    );
                }
            } else {
                assert(order@[i] == before[i - 1] && order@[j] == before[j - 1]);
            }
        }
        assert forall|i: int| 0 <= i < k + 1 implies 0 <= #[trigger] order@[i] < k + 1 by {
            if i < p {
                assert(order@[i] == before[i]);
            } else if i > p {
                assert(order@[i] == before[i - 1]);
            }
        }
        k += 1;
    }
    order
}

/// A copy of a row.
fn copy_item(item: &CompletionItem) -> (out: CompletionItem)
    ensures
        out@ == item@,
{
    CompletionItem {
        display: text::copy(item.display.as_str()),
        insert: text::copy(item.insert.as_str()),
        detail: text::copy_option(&item.detail),
        selectable: item.selectable,
        caret_back: item.caret_back,
    }
}

/// The rows that are offered for members that match as `ranks` says: those that match best and
/// their groups first, and where there are several groups, each with its heading.
pub fn rows_for(members: &Vec<CompletionMember>, ranks: &Vec<Option<u8>>) -> (items: Vec<
    CompletionItem,
>)
    requires
        members@.len() == ranks@.len(),
    ensures
        are_rows(
            matching(members@, ranks@, members@.len() as int),
            items_of(items@),
        ),
{
    let mut hits: Vec<Hit> = Vec::new();
    let mut m: usize = 0;
    assert(hits_of(hits@) =~= matching(members@, ranks@, 0));
    while m < members.len()
        invariant
            m <= members.len(),
            members@.len() == ranks@.len(),
            hits_of(hits@) == matching(members@, ranks@, m as int),
        decreases members.len() - m,
    {
        if let Some(rank) = ranks[m] {
            let ghost before = hits_of(hits@);
            let hit = make_hit(&members[m], rank);
            hits.push(hit);
            assert(hits_of(hits@) =~= before.push(hit@));
        }
        m += 1;
    }
    let ghost all = hits_of(hits@);
    let order = put_in_order(&hits);
    let ghost places = places_of(order@);
    let mut headings = false;
    let mut g: usize = 0;
    while g < hits.len()
        invariant
            g <= hits.len(),
            all == hits_of(hits@),
            headings ==> several_groups(all),
            !headings ==> forall|i: int| 0 <= i < g ==> same_group(#[trigger] all[i], all[0]),
        decreases hits.len() - g,
    {
        assert(all[g as int] == hits@[g as int]@);
        assert(all[0] == hits@[0]@);
        if !in_same_group(&hits[g], &hits[0]) {
            headings = true;
        }
        g += 1;
    }
    assert(headings == several_groups(all));
    let mut items: Vec<CompletionItem> = Vec::new();
    let mut n: usize = 0;
    assert(items_of(items@) =~= rows_of(all, places, 0, headings));
    while n < order.len()
        invariant
            n <= order.len(),
            all == hits_of(hits@),
            places == places_of(order@),
            is_order(all, places),
            items_of(items@) == rows_of(all, places, n as int, headings),
        decreases order.len() - n,
    {
        assert(places[n as int] == order@[n as int]);
        let h = &hits[order[n]];
        assert(all[places[n as int]] == h@);
        let mut fresh = n == 0;
        if n > 0 {
            assert(places[n - 1] == order@[n - 1]);
            let last = &hits[order[n - 1]];
            assert(all[places[n - 1]] == last@);
            fresh = !in_same_group(last, h);
        }
        if headings && fresh {
            let ghost before = items_of(items@);
            let line = label(h.genre.as_str());
            items.push(line);
            assert(items_of(items@) =~= before.push(line@));
        }
        let ghost before = items_of(items@);
        let item = copy_item(&h.item);
        items.push(item);
        assert(items_of(items@) =~= before.push(item@));
        n += 1;
    }
    items
}

/// How well a query matches each member.
pub open spec fn ranks_for(members: Seq<CompletionMember>, query: Txt) -> Seq<Option<u8>> {
    members.map_values(|m: CompletionMember| member_rank(m, query))
}

/// The rows that are offered for a query.
pub fn completion_items(members: &Vec<CompletionMember>, query: &str) -> (items: Vec<
    CompletionItem,
>)
    ensures
        are_rows(
            matching(members@, ranks_for(members@, query@), members@.len() as int),
            items_of(items@),
        ),
{
    let depth: usize = count(query, '.');
    let mut ranks: Vec<Option<u8>> = Vec::new();
    let mut i: usize = 0;
    while i < members.len()
        invariant
            i <= members.len(),
            depth == count_of(query@, '.'),
            ranks@.len() == i,
            forall|j: int| 0 <= j < i ==> #[trigger] ranks@[j] == member_rank(members@[j], query@),
        decreases members.len() - i,
    {
        let m = &members[i];
        let rank = if count(m.name.as_str(), '.') != depth {
            None
        } else {
            match &m.builtin {
                Some(b) => match_rank(query, m.name.as_str(), Some(b.label.as_str())),
                None => match &m.script {
                    Some(s) => match &s.label {
                        Some(l) => match_rank(query, m.name.as_str(), Some(l.as_str())),
                        None => match_rank(query, m.name.as_str(), None),
                    },
                    None => match_rank(query, m.name.as_str(), None),
                },
            }
        };
        ranks.push(rank);
        i += 1;
    }
    assert(ranks@ =~= ranks_for(members@, query@));
    rows_for(members, &ranks)
}

/// The rows that can be picked, among the first `n`.
pub open spec fn pickable(items: Seq<CompletionItem<Txt>>, n: int) -> Seq<int>
    decreases n,
{
    if n <= 0 {
        Seq::empty()
    } else if items[n - 1].selectable {
        pickable(items, n - 1).push(n - 1)
    } else {
        pickable(items, n - 1)
    }
}

/// The rows that can be picked.
pub fn pickable_rows(items: &Vec<CompletionItem>) -> (rows: Vec<usize>)
    ensures
        places_of(rows@) == pickable(items_of(items@), items@.len() as int),
        forall|i: int| 0 <= i < rows@.len() ==> #[trigger] rows@[i] < items@.len(),
{
    let ghost all = items_of(items@);
    let mut rows: Vec<usize> = Vec::new();
    let mut i: usize = 0;
    assert(places_of(rows@) =~= pickable(all, 0));
    while i < items.len()
        invariant
            i <= items.len(),
            all == items_of(items@),
            places_of(rows@) == pickable(all, i as int),
            forall|j: int| 0 <= j < rows@.len() ==> #[trigger] rows@[j] < i,
        decreases items.len() - i,
    {
        assert(all[i as int] == items@[i as int]@);
        if items[i].selectable {
            let ghost before = places_of(rows@);
            rows.push(i);
            assert(places_of(rows@) =~= before.push(i as int));
        }
        i += 1;
    }
    rows
}

/// Whether rows are worth showing for what was written: there is one that can be picked; and
/// unless the user asks for them, it is not only the one that was written already.
pub open spec fn worth_showing(
    items: Seq<CompletionItem<Txt>>,
    written: Txt,
    force: bool,
) -> bool {
    let rows = pickable(items, items.len() as int);
    &&& rows.len() > 0
    &&& force || rows.len() > 1 || text::ascii_lowered(items[rows[0]].display)
        != text::ascii_lowered(written)
}

/// What is offered for code: the rows for what stands before the caret, and where in UTF-16
/// units it starts. `caret` is where the caret is.
pub fn code_completions(
    members: &Vec<CompletionMember>,
    before: &str,
    caret: u32,
    force: bool,
) -> (offer: Option<(u32, Vec<CompletionItem>)>)
    requires
        winpath::utf16(before@).len() <= caret,
    ensures
        match offer {
            Some((start, items)) => prefix_of(before@) matches Some(prefix) && {
                &&& start == caret - winpath::utf16(prefix).len()
                &&& are_rows(
                    matching(members@, ranks_for(members@, prefix), members@.len() as int),
                    items_of(items@),
                )
                &&& worth_showing(items_of(items@), prefix, force)
                &&& carets_fit(items_of(items@))
            },
            None => prefix_of(before@) matches Some(prefix) ==> exists|
                items: Seq<CompletionItem<Txt>>,
            |
                #[trigger] are_rows(
                    matching(members@, ranks_for(members@, prefix), members@.len() as int),
                    items,
                ) && !worth_showing(items, prefix, force),
        },
{
    match completion_prefix(before) {
        None => None,
        Some((len, prefix)) => {
            proof {
                lemma_prefix_is_short(before@);
            }
            let items = completion_items(members, prefix.as_str());
            let rows = pickable_rows(&items);
            let ghost shown = items_of(items@);
            assert(are_rows(
                matching(members@, ranks_for(members@, prefix@), members@.len() as int),
                shown,
            ));
            if rows.len() == 0 {
                return None;
            }
            assert(places_of(rows@)[0] == rows@[0]);
            assert(shown[rows@[0] as int] == items@[rows@[0] as int]@);
            if !force && rows.len() == 1 && text::same_ignoring_case(
                items[rows[0]].display.as_str(),
                prefix.as_str(),
            ) {
                return None;
            }
            proof {
                law_carets_stay_in_what_is_inserted(
                    members@,
                    ranks_for(members@, prefix@),
                    shown,
                );
            }
            Some((caret - len as u32, items))
        },
    }
}

proof fn lemma_utf16_len(s: Txt)
    ensures
        s.len() <= winpath::utf16(s).len(),
        (forall|i: int| 0 <= i < s.len() ==> (#[trigger] s[i] as u32) < 0x10000) ==> s.len()
            == winpath::utf16(s).len(),
    decreases s.len(),
{
    if s.len() > 0 {
        lemma_utf16_len(s.drop_last());
        assert(forall|i: int| 0 <= i < s.drop_last().len() ==> s.drop_last()[i] == s[i]);
    }
}

proof fn lemma_prefix_is_short(before: Txt)
    ensures
        prefix_of(before) matches Some(prefix) ==> winpath::utf16(prefix).len()
            <= winpath::utf16(before).len(),
{
    reveal_strlit(".");
    lemma_ident_start(before, before.len() as int);
    let ident = last_ident(before);
    lemma_utf16_len(before);
    lemma_utf16_len(ident);
    match text::unsuffixed(before_ident(before), "."@) {
        None => {},
        Some(head) => {
            lemma_ident_start(head, head.len() as int);
            let ns = last_ident(head);
            let both = ns + "."@ + ident;
            lemma_utf16_len(both);
            assert(both.len() <= before.len());
            assert forall|i: int| 0 <= i < both.len() implies (#[trigger] both[i] as u32)
                < 0x10000 by {
                if i < ns.len() {
                    assert(both[i] == head[ident_start(head, head.len() as int) + i]);
                } else if i > ns.len() {
                    assert(both[i] == before[ident_start(before, before.len() as int) + i
                        - ns.len() - 1]);
                }
            }
        },
    }
}

/// A command of the palette.
pub struct PaletteCommand {
    /// What it is shown as.
    pub display: String,
    /// What is inserted for it.
    pub token: String,
    /// What is said of it.
    pub detail: Option<String>,
}

/// Whether a command is offered for what was written.
pub open spec fn is_offered(c: PaletteCommand, q: Txt) -> bool {
    q.len() == 0 || text::is_within(
        outside::lowercase_text(c.token@),
        outside::lowercase_text(q),
    ) || text::is_within(c.display@, q)
}

/// The rows of the first `n` commands that are offered.
pub open spec fn palette_rows(commands: Seq<PaletteCommand>, offered: Seq<bool>, n: int) -> Seq<
    CompletionItem<Txt>,
>
    decreases n,
{
    if n <= 0 {
        Seq::empty()
    } else if offered[n - 1] {
        palette_rows(commands, offered, n - 1).push(palette_row(commands[n - 1]))
    } else {
        palette_rows(commands, offered, n - 1)
    }
}

/// The row of a command.
pub open spec fn palette_row(c: PaletteCommand) -> CompletionItem<Txt> {
    CompletionItem {
        display: c.display@,
        insert: c.token@,
        detail: c.detail.deep_view(),
        selectable: true,
        caret_back: 0,
    }
}

/// The rows of the commands that are offered.
pub fn rows_offered(commands: &Vec<PaletteCommand>, offered: &Vec<bool>) -> (items: Vec<
    CompletionItem,
>)
    requires
        commands@.len() == offered@.len(),
    ensures
        items_of(items@) == palette_rows(commands@, offered@, commands@.len() as int),
{
    let mut items: Vec<CompletionItem> = Vec::new();
    let mut i: usize = 0;
    assert(items_of(items@) =~= palette_rows(commands@, offered@, 0));
    while i < commands.len()
        invariant
            i <= commands.len(),
            commands@.len() == offered@.len(),
            items_of(items@) == palette_rows(commands@, offered@, i as int),
        decreases commands.len() - i,
    {
        if offered[i] {
            let c = &commands[i];
            let item = CompletionItem {
                display: text::copy(c.display.as_str()),
                insert: text::copy(c.token.as_str()),
                detail: text::copy_option(&c.detail),
                selectable: true,
                caret_back: 0,
            };
            let ghost before = items_of(items@);
            items.push(item);
            assert(items_of(items@) =~= before.push(item@));
        }
        i += 1;
    }
    items
}

/// Whether the rows of commands are worth showing: there are any; and unless the user asks for
/// them, it is not only the one that was written already.
pub open spec fn palette_worth(items: Seq<CompletionItem<Txt>>, q: Txt, force: bool) -> bool {
    &&& items.len() > 0
    &&& force || items.len() > 1 || text::ascii_lowered(items[0].insert)
        != text::ascii_lowered(q)
}

/// Which commands are offered for what was written.
pub open spec fn offers_for(commands: Seq<PaletteCommand>, q: Txt) -> Seq<bool> {
    commands.map_values(|c: PaletteCommand| is_offered(c, q))
}

/// What is offered for what was written in the palette: the commands whose token or label hold
/// it, without the white space before it.
pub open spec fn palette_offer(commands: Seq<PaletteCommand>, before: Txt, force: bool) -> Option<
    Seq<CompletionItem<Txt>>,
> {
    let q = text::trimmed_left(before);
    let items = palette_rows(commands, offers_for(commands, q), commands.len() as int);
    if (q.len() == 0 && !force) || !palette_worth(items, q, force) {
        None
    } else {
        Some(items)
    }
}

/// What is offered for what was written in the palette. All that was written is replaced.
pub fn command_completions(commands: &Vec<PaletteCommand>, before: &str, force: bool) -> (offer:
    Option<(u32, Vec<CompletionItem>)>)
    ensures
        match offer {
            Some((start, items)) => start == 0 && palette_offer(commands@, before@, force) == Some(
                items_of(items@),
            ) && carets_fit(items_of(items@)),
            None => palette_offer(commands@, before@, force) is None,
        },
{
    let q = text::trim_start(before);
    if q.as_str().is_empty() && !force {
        return None;
    }
    let lower = outside::lowercase(q.as_str());
    let mut offered: Vec<bool> = Vec::new();
    let mut i: usize = 0;
    while i < commands.len()
        invariant
            i <= commands.len(),
            lower@ == outside::lowercase_text(q@),
            offered@.len() == i,
            forall|j: int| 0 <= j < i ==> #[trigger] offered@[j] == is_offered(commands@[j], q@),
        decreases commands.len() - i,
    {
        let c = &commands[i];
        let token = outside::lowercase(c.token.as_str());
        offered.push(
            q.as_str().is_empty() || text::contains(token.as_str(), lower.as_str())
                || text::contains(c.display.as_str(), q.as_str()),
        );
        i += 1;
    }
    assert(offered@ =~= offers_for(commands@, q@));
    let items = rows_offered(commands, &offered);
    if items.len() == 0 {
        return None;
    }
    assert(items_of(items@)[0] == items@[0]@);
    if !force && items.len() == 1 && text::same_ignoring_case(
        items[0].insert.as_str(),
        q.as_str(),
    ) {
        return None;
    }
    proof {
        lemma_palette_fits(commands@, offered@, commands@.len() as int);
    }
    Some((0, items))
}

proof fn lemma_order_holds_all(hits: Seq<Hit<Txt>>, order: Seq<int>, k: int)
    requires
        is_order(hits, order),
        0 <= k < hits.len(),
    ensures
        order.contains(k),
{
    let n = hits.len() as int;
    assert(order.no_duplicates());
    order.unique_seq_to_set();
    vstd::set_lib::lemma_int_range(0, n);
    let all = vstd::set_lib::set_int_range(0, n);
    assert(order.to_set().subset_of(all));
    vstd::set_lib::lemma_subset_equality(order.to_set(), all);
    assert(order.to_set().contains(k));
}

proof fn lemma_orders_agree(hits: Seq<Hit<Txt>>, a: Seq<int>, b: Seq<int>, n: int)
    requires
        is_order(hits, a),
        is_order(hits, b),
        0 <= n <= hits.len(),
    ensures
        forall|i: int| 0 <= i < n ==> a[i] == b[i],
    decreases n,
{
    if n > 0 {
        let m = n - 1;
        lemma_orders_agree(hits, a, b, m);
        if a[m] != b[m] {
            lemma_order_holds_all(hits, b, a[m]);
            lemma_order_holds_all(hits, a, b[m]);
            let i = choose|i: int| 0 <= i < b.len() && b[i] == a[m];
            let j = choose|j: int| 0 <= j < a.len() && a[j] == b[m];
            if i < m {
                assert(precedes(hits, a[i], a[m]));
            } else if j < m {
                assert(precedes(hits, b[j], b[m]));
            } else {
                assert(precedes(hits, b[m], b[i]));
                assert(precedes(hits, a[m], a[j]));
                lemma_precedes_total(hits, a[m], b[m]);
            }
        }
    }
}

/// There is but one way to put the members, so there is but one list of rows for a query.
pub proof fn law_rows_are_unique(
    hits: Seq<Hit<Txt>>,
    x: Seq<CompletionItem<Txt>>,
    y: Seq<CompletionItem<Txt>>,
)
    requires
        are_rows(hits, x),
        are_rows(hits, y),
    ensures
        x == y,
{
    let headings = several_groups(hits);
    let a = choose|order: Seq<int>| #[trigger]
        is_order(hits, order) && x == rows_of(hits, order, order.len() as int, headings);
    let b = choose|order: Seq<int>| #[trigger]
        is_order(hits, order) && y == rows_of(hits, order, order.len() as int, headings);
    lemma_orders_agree(hits, a, b, hits.len() as int);
    assert(a =~= b);
}

/// A name that starts with the query matches better than anything else does.
pub proof fn law_prefixes_match_best(q: Txt, name: Txt, initials: Txt, label: Option<Txt>)
    ensures
        rank_lower(q, name, initials, label) == Some(0u8) <==> text::has_prefix(name, q),
        rank_lower(q, name, initials, label) matches Some(r) ==> r <= 3,
{
}

/// Every row that is offered is a heading, which cannot be picked, or the row of a member.
pub proof fn law_rows_are_headings_or_members(
    hits: Seq<Hit<Txt>>,
    order: Seq<int>,
    n: int,
    headings: bool,
    i: int,
)
    requires
        is_order(hits, order),
        forall|j: int| 0 <= j < hits.len() ==> (#[trigger] hits[j]).item.selectable,
        0 <= n <= order.len(),
        0 <= i < rows_of(hits, order, n, headings).len(),
    ensures
        ({
            let row = rows_of(hits, order, n, headings)[i];
            if row.selectable {
                exists|j: int| 0 <= j < hits.len() && #[trigger] hits[j].item == row
            } else {
                headings && exists|j: int|
                    0 <= j < hits.len() && row == heading((#[trigger] hits[j]).genre)
            }
        }),
    decreases n,
{
    if n > 0 {
        let before = rows_of(hits, order, n - 1, headings);
        let h = hits[order[n - 1]];
        if i < before.len() {
            law_rows_are_headings_or_members(hits, order, n - 1, headings, i);
            assert(rows_of(hits, order, n, headings)[i] == before[i]);
        } else {
            let j = order[n - 1];
            assert(0 <= j < hits.len());
            assert(hits[j].item.selectable);
        }
    }
}

/// Whether the caret goes back no further than what each row inserts is long.
pub open spec fn carets_fit(items: Seq<CompletionItem<Txt>>) -> bool {
    forall|i: int|
        0 <= i < items.len() ==> (#[trigger] items[i]).caret_back <= winpath::utf16(
            items[i].insert,
        ).len()
}

proof fn lemma_hits_fit(members: Seq<CompletionMember>, ranks: Seq<Option<u8>>, n: int)
    requires
        0 <= n <= members.len(),
    ensures
        forall|i: int|
            0 <= i < matching(members, ranks, n).len() ==> {
                let item = (#[trigger] matching(members, ranks, n)[i]).item;
                item.caret_back <= winpath::utf16(item.insert).len()
            },
    decreases n,
{
    if n > 0 {
        lemma_hits_fit(members, ranks, n - 1);
        if let Some(rank) = ranks[n - 1] {
            reveal_strlit("()");
            lemma_utf16_len(hit_of(members[n - 1], rank).item.insert);
        }
    }
}

proof fn lemma_rows_fit(hits: Seq<Hit<Txt>>, order: Seq<int>, n: int, headings: bool)
    requires
        is_order(hits, order),
        0 <= n <= order.len(),
        forall|i: int|
            0 <= i < hits.len() ==> (#[trigger] hits[i]).item.caret_back <= winpath::utf16(
                hits[i].item.insert,
            ).len(),
    ensures
        carets_fit(rows_of(hits, order, n, headings)),
    decreases n,
{
    if n > 0 {
        lemma_rows_fit(hits, order, n - 1, headings);
        let j = order[n - 1];
        assert(hits[j].item.caret_back <= winpath::utf16(hits[j].item.insert).len());
    }
}

/// Picking a row never sends the caret before what the row inserts.
pub proof fn law_carets_stay_in_what_is_inserted(
    members: Seq<CompletionMember>,
    ranks: Seq<Option<u8>>,
    items: Seq<CompletionItem<Txt>>,
)
    requires
        are_rows(matching(members, ranks, members.len() as int), items),
    ensures
        carets_fit(items),
{
    let hits = matching(members, ranks, members.len() as int);
    lemma_hits_fit(members, ranks, members.len() as int);
    let order = choose|order: Seq<int>| #[trigger]
        is_order(hits, order) && items == rows_of(
            hits,
            order,
            order.len() as int,
            several_groups(hits),
        );
    lemma_rows_fit(hits, order, order.len() as int, several_groups(hits));
}

proof fn lemma_palette_fits(commands: Seq<PaletteCommand>, offered: Seq<bool>, n: int)
    ensures
        carets_fit(palette_rows(commands, offered, n)),
    decreases n,
{
    if n > 0 {
        lemma_palette_fits(commands, offered, n - 1);
    }
}

} // verus!
