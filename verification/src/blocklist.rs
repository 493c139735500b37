//! Domain blocklists.
//!
//! Three formats are understood, line by line:
//!   1. hosts file: `127.0.0.1 ad.example.com` (that name only),
//!   2. domains only: `ad.example.com` (that name only),
//!   3. AdBlock style: `||ad.example.com^` (the domain and all subdomains).
//!
//! Lines that start with `#` or `!` are comments, and blank lines are
//! skipped. AdBlock exceptions (`@@||...`) are skipped too: an exception is
//! made with an allowing policy rule.
use crate::text;
use crate::text::{
    chars_of, from_utf8, has_char, next_word, string_of, to_lower, trim, without_trailing,
};
use vstd::hash_set::StringHashSet;
use vstd::prelude::*;
use vstd::slice::slice_subrange;

verus! {

/// What one line of a list blocks.
pub enum Entry {
    /// That domain only.
    Exact(Seq<char>),
    /// The domain and all its subdomains.
    DomainAndSubs(Seq<char>),
}

/// Letters, digits, hyphens and dots.
pub open spec fn domain_char(c: char) -> bool {
    ||| 'a' <= c <= 'z'
    ||| 'A' <= c <= 'Z'
    ||| '0' <= c <= '9'
    ||| c == '-'
    ||| c == '.'
}

/// A domain that a list may hold: at most 253 letters, digits, hyphens and
/// dots, with a dot among them (so `localhost` is none).
pub open spec fn valid_domain(s: Seq<char>) -> bool {
    &&& s.len() <= 253
    &&& s.contains('.')
    &&& forall|i: int| 0 <= i < s.len() ==> domain_char(#[trigger] s[i])
}

/// What passes for an address at the start of a hosts-file line: it starts
/// with a digit or has a colon in it.
pub open spec fn ip_like(s: Seq<char>) -> bool {
    (s.len() > 0 && '0' <= s[0] <= '9') || s.contains(':')
}

/// Whether a text starts with the given character, twice.
pub open spec fn doubled(s: Seq<char>, c: char) -> bool {
    s.len() >= 2 && s[0] == c && s[1] == c
}

/// The domain of an AdBlock rule: what follows the `||`, without the
/// trailing separators, in lower case.
pub open spec fn adblock_domain(line: Seq<char>) -> Seq<char> {
    text::lower(text::trimmed(text::trim_end_of(line.skip(2), |c: char| seq!['^', '|'].contains(c))))
}

/// What a trimmed line that is neither blank nor a comment blocks.
pub open spec fn rule_entry(line: Seq<char>) -> Option<Entry> {
    let w = text::words(line);
    if doubled(line, '|') {
        if valid_domain(adblock_domain(line)) {
            Some(Entry::DomainAndSubs(adblock_domain(line)))
        } else {
            None
        }
    } else if doubled(line, '@') {
        None
    } else if w.len() >= 2 && ip_like(w[0]) {
        if valid_domain(text::lower(w[1])) {
            Some(Entry::Exact(text::lower(w[1])))
        } else {
            None
        }
    } else if w.len() == 1 && valid_domain(text::lower(w[0])) {
        Some(Entry::Exact(text::lower(w[0])))
    } else {
        None
    }
}

/// What a line of text blocks, if anything.
pub open spec fn line_entry(text: Seq<char>) -> Option<Entry> {
    let line = text::trimmed(text);
    if line.len() == 0 || line[0] == '#' || line[0] == '!' {
        None
    } else {
        rule_entry(line)
    }
}

/// Whether `input[from..to]` is a line: it starts the input or follows a
/// line feed, holds no line feed, and ends the input or is followed by one.
pub open spec fn is_line(input: Seq<u8>, from: int, to: int) -> bool {
    &&& 0 <= from <= to <= input.len()
    &&& from == 0 || input[from - 1] == 10
    &&& to == input.len() || input[to] == 10
    &&& forall|i: int| from <= i < to ==> input[i] != 10
}

/// What the bytes of a line block, if anything; a line that is not UTF-8
/// blocks nothing.
pub open spec fn bytes_entry(line: Seq<u8>) -> Option<Entry> {
    if vstd::utf8::valid_utf8(line) {
        line_entry(vstd::utf8::decode_utf8(line))
    } else {
        None
    }
}

/// Whether some line of the input that starts before `limit` has this entry.
pub open spec fn listed_before(input: Seq<u8>, limit: int, entry: Entry) -> bool {
    exists|from: int, to: int| #[trigger]
        is_line(input, from, to) && from < limit && bytes_entry(input.subrange(from, to)) == Some(
            entry,
        )
}

/// Whether some line of the input has this entry.
pub open spec fn listed(input: Seq<u8>, entry: Entry) -> bool {
    exists|from: int, to: int| #[trigger]
        is_line(input, from, to) && bytes_entry(input.subrange(from, to)) == Some(entry)
}

/// The names that the lines of a list block by exact match.
pub open spec fn exact_entries(input: Seq<u8>) -> Set<Seq<char>> {
    Set::new(|d: Seq<char>| listed(input, Entry::Exact(d)))
}

/// The domains that the lines of a list block with all their subdomains.
pub open spec fn suffix_entries(input: Seq<u8>) -> Set<Seq<char>> {
    Set::new(|d: Seq<char>| listed(input, Entry::DomainAndSubs(d)))
}

/// Whether the last part of a name from `k` on is the name itself or one of
/// its parent domains.
pub open spec fn parent_at(name: Seq<char>, k: int) -> bool {
    0 <= k <= name.len() && (k == 0 || name[k - 1] == '.')
}

/// Whether a name is blocked by a list with these two indexes: it is among
/// the exact entries, or it or a parent domain of it is among the suffixes.
pub open spec fn blocks(
    exact: Set<Seq<char>>,
    suffixes: Set<Seq<char>>,
    hostname: Seq<char>,
) -> bool {
    let name = text::lower(hostname);
    ||| exact.contains(name)
    ||| exists|k: int| #[trigger] parent_at(name, k) && suffixes.contains(name.skip(k))
}

enum BlocklistEntry {
    Exact(String),
    DomainAndSubs(String),
}

impl BlocklistEntry {
    spec fn entry(self) -> Entry {
        match self {
            BlocklistEntry::Exact(d) => Entry::Exact(d@),
            BlocklistEntry::DomainAndSubs(d) => Entry::DomainAndSubs(d@),
        }
    }
}

/// A loaded blocklist: the names that must match exactly, and the domains
/// that block their subdomains too.
pub struct Blocklist {
    exact: StringHashSet,
    suffixes: StringHashSet,
    /// The name that rules refer to the list by.
    pub name: String,
}

fn is_valid_domain(s: &[char]) -> (r: bool)
    ensures
        r == valid_domain(s@),
{
    if s.len() > 253 || !has_char(s, '.') {
        return false;
    }
    for i in 0..s.len()
        invariant
            forall|j: int| 0 <= j < i ==> domain_char(#[trigger] s@[j]),
    {
        let c: char = s[i];
        if !((c >= 'a' && c <= 'z') || (c >= 'A' && c <= 'Z') || (c >= '0' && c <= '9') || c == '-'
            || c == '.') {
            return false;
        }
    }
    true
}

fn looks_like_ip(s: &[char]) -> (r: bool)
    ensures
        r == ip_like(s@),
{
    (s.len() > 0 && s[0] >= '0' && s[0] <= '9') || has_char(s, ':')
}

impl Blocklist {
    #[verifier::type_invariant]
    spec fn countable(&self) -> bool {
        self.exact@.len() + self.suffixes@.len() <= usize::MAX
    }

    /// The names that are blocked by exact match.
    pub closed spec fn exact(&self) -> Set<Seq<char>> {
        self.exact@
    }

    /// The domains that are blocked with all their subdomains.
    pub closed spec fn suffixes(&self) -> Set<Seq<char>> {
        self.suffixes@
    }

    /// The name that rules refer to the list by.
    pub closed spec fn title(&self) -> Seq<char> {
        self.name@
    }

    /// Whether the list blocks a name.
    pub open spec fn blocks(&self, hostname: Seq<char>) -> bool {
        blocks(self.exact(), self.suffixes(), hostname)
    }

    fn parse_line(line: &[char]) -> (r: Option<BlocklistEntry>)
        ensures
            match r {
                Some(e) => rule_entry(line@) == Some(e.entry()),
                None => rule_entry(line@) is None,
            },
    {
        if line.len() >= 2 && line[0] == '|' && line[1] == '|' {
            let rest = slice_subrange(line, 2, line.len());
            assert(rest@ =~= line@.skip(2));
            let separators: [char; 2] = ['^', '|'];
            let drop: &[char] = &separators;
            assert(drop@ =~= seq!['^', '|']);
            let domain = to_lower(trim(without_trailing(rest, drop)));
            assert(domain@ == adblock_domain(line@));
            if is_valid_domain(&domain) {
                return Some(BlocklistEntry::DomainAndSubs(string_of(&domain)));
            }
            return None;
        }
        if line.len() >= 2 && line[0] == '@' && line[1] == '@' {
            return None;
        }
        match next_word(line) {
            None => None,
            Some((first, rest)) => match next_word(rest) {
                Some((second, _)) => {
                    if !looks_like_ip(first) {
                        return None;
                    }
                    let domain = to_lower(second);
                    if is_valid_domain(&domain) {
                        Some(BlocklistEntry::Exact(string_of(&domain)))
                    } else {
                        None
                    }
                },
                None => {
                    let domain = to_lower(first);
                    if is_valid_domain(&domain) {
                        Some(BlocklistEntry::Exact(string_of(&domain)))
                    } else {
                        None
                    }
                },
            },
        }
    }

    /// The entry of one line as it stands in a file.
    fn parse_bytes(line: &[u8]) -> (r: Option<BlocklistEntry>)
        ensures
            match r {
                Some(e) => bytes_entry(line@) == Some(e.entry()),
                None => bytes_entry(line@) is None,
            },
    {
        let text = match from_utf8(line) {
            Some(text) => text,
            None => {
                return None;
            },
        };
        let chars = chars_of(text);
        let line = trim(&chars);
        if line.len() == 0 || line[0] == '#' || line[0] == '!' {
            return None;
        }
        Self::parse_line(line)
    }

    /// Reads a list from the bytes of a file, detecting the format of each
    /// line.
    pub fn parse(input: &[u8], name: String) -> (r: Blocklist)
        ensures
            r.title() == name@,
            r.exact().finite(),
            r.suffixes().finite(),
            r.exact() == exact_entries(input@),
            r.suffixes() == suffix_entries(input@),
            r.exact().len() + r.suffixes().len() <= input@.len(),
    {
        let mut exact = StringHashSet::new();
        let mut suffixes = StringHashSet::new();
        let mut start: usize = 0;
        loop
            invariant_except_break
                start <= input@.len(),
                start == 0 || input@[start - 1] == 10,
                exact@.finite(),
                suffixes@.finite(),
                exact@.len() + suffixes@.len() <= start,
                forall|d: Seq<char>| #[trigger]
                    exact@.contains(d) <==> listed_before(input@, start as int, Entry::Exact(d)),
                forall|d: Seq<char>| #[trigger]
                    suffixes@.contains(d) <==> listed_before(
                        input@,
                        start as int,
                        Entry::DomainAndSubs(d),
                    ),
            ensures
                exact@.finite(),
                suffixes@.finite(),
                exact@.len() + suffixes@.len() <= input@.len() <= usize::MAX,
                forall|d: Seq<char>| #[trigger]
                    exact@.contains(d) <==> listed_before(
                        input@,
                        (input@.len() + 1) as int,
                        Entry::Exact(d),
                    ),
                forall|d: Seq<char>| #[trigger]
                    suffixes@.contains(d) <==> listed_before(
                        input@,
                        (input@.len() + 1) as int,
                        Entry::DomainAndSubs(d),
                    ),
            decreases input@.len() - start,
        {
            let mut end: usize = start;
            while end < input.len() && input[end] != 10
                invariant
                    start <= end <= input@.len(),
                    forall|i: int| start <= i < end ==> input@[i] != 10,
                decreases input@.len() - end,
            {
                end += 1;
            }
            let line = slice_subrange(input, start, end);
            let entry = Self::parse_bytes(line);
            let ghost new = bytes_entry(line@);
            proof {
                lemma_empty_lines_have_no_entry(line@);
                assert forall|e: Entry| #[trigger]
                    listed_before(input@, end + 1, e) <==> listed_before(input@, start as int, e)
                        || new == Some(e) by {
                    lemma_next_line(input@, start as int, end as int, e);
                }
            }
            match entry {
                Some(BlocklistEntry::Exact(d)) => {
                    exact.insert(d);
                },
                Some(BlocklistEntry::DomainAndSubs(d)) => {
                    suffixes.insert(d);
                },
                None => {},
            }
            if end == input.len() {
                break;
            }
            start = end + 1;
        }
        proof {
            assert forall|e: Entry| #[trigger]
                listed(input@, e) <==> listed_before(input@, (input@.len() + 1) as int, e) by {
                if listed(input@, e) {
                    let (from, to) = choose|from: int, to: int| #[trigger]
                        is_line(input@, from, to) && bytes_entry(input@.subrange(from, to)) == Some(e);
                    assert(is_line(input@, from, to) && from < input@.len() + 1);
                }
            }
        }
        assert(exact@ =~= exact_entries(input@));
        assert(suffixes@ =~= suffix_entries(input@));
        Blocklist { exact, suffixes, name }
    }

    /// The name that rules refer to the list by.
    pub fn label(&self) -> (r: &str)
        ensures
            r@ == self.title(),
    {
        self.name.as_str()
    }

    /// Whether a name is blocked by this list.
    pub fn contains(&self, hostname: &str) -> (r: bool)
        ensures
            r == self.blocks(hostname@),
    {
        let chars = to_lower(&chars_of(hostname));
        let ghost name = text::lower(hostname@);
        if self.exact.contains(string_of(&chars).as_str()) {
            return true;
        }
        if self.suffixes.contains(string_of(&chars).as_str()) {
            assert(name.skip(0) =~= name);
            assert(parent_at(name, 0));
            return true;
        }
        assert(name.skip(0) =~= name);
        for k in 0..chars.len()
            invariant
                chars@ == name,
                name == text::lower(hostname@),
                !self.exact@.contains(name),
                forall|j: int| #[trigger]
                    parent_at(name, j) && j <= k ==> !self.suffixes@.contains(name.skip(j)),
        {
            if chars[k] == '.' {
                let rest = slice_subrange(&chars, k + 1, chars.len());
                assert(rest@ =~= name.skip(k + 1));
                if self.suffixes.contains(string_of(rest).as_str()) {
                    assert(parent_at(name, k + 1));
                    return true;
                }
            }
        }
        false
    }

    /// The number of entries.
    pub fn len(&self) -> (r: usize)
        ensures
            r == self.exact().len() + self.suffixes().len(),
    {
        proof {
            use_type_invariant(self);
        }
        self.exact.len() + self.suffixes.len()
    }

    /// The number of entries that block a domain with all its subdomains.
    pub fn suffix_count(&self) -> (r: usize)
        ensures
            r == self.suffixes().len(),
    {
        self.suffixes.len()
    }

    /// Whether the list has no entries at all.
    pub fn is_empty(&self) -> (r: bool)
        ensures
            r == (self.exact().is_empty() && self.suffixes().is_empty()),
    {
        self.exact.is_empty() && self.suffixes.is_empty()
    }
}

/// An empty line has no entry.
proof fn lemma_empty_lines_have_no_entry(line: Seq<u8>)
    ensures
        line.len() == 0 ==> bytes_entry(line) is None,
{
}

/// The line `input[start..end]` comes right after those that start before it.
proof fn lemma_next_line(input: Seq<u8>, start: int, end: int, e: Entry)
    requires
        is_line(input, start, end),
    ensures
        listed_before(input, end + 1, e) <==> listed_before(input, start, e) || bytes_entry(
            input.subrange(start, end),
        ) == Some(e),
{
    if listed_before(input, end + 1, e) {
        let (from, to) = choose|from: int, to: int| #[trigger]
            is_line(input, from, to) && from < end + 1 && bytes_entry(input.subrange(from, to))
                == Some(e);
        assert(is_line(input, from, to));
        if from > start {
            assert(input[from - 1] == 10);
        }
        if from == start {
            assert(to == end) by {
                if to < end {
                    assert(input[to] == 10);
                }
                if end < to {
                    assert(input[end] == 10);
                }
            }
        }
    }
    if listed_before(input, start, e) {
        let (from, to) = choose|from: int, to: int| #[trigger]
            is_line(input, from, to) && from < start && bytes_entry(input.subrange(from, to))
                == Some(e);
        assert(is_line(input, from, to) && from < end + 1);
    }
    if bytes_entry(input.subrange(start, end)) == Some(e) {
        assert(is_line(input, start, end) && start < end + 1);
    }
}

/// Matching is case-insensitive: names that differ only in the case of ASCII
/// letters are blocked by the same lists.
pub proof fn law_case_does_not_matter(list: Blocklist, a: Seq<char>, b: Seq<char>)
    requires
        text::lower(a) == text::lower(b),
    ensures
        list.blocks(a) == list.blocks(b),
{
}

/// A list blocks each of its suffix entries, and every name below one.
pub proof fn law_suffixes_block_subdomains(list: Blocklist, domain: Seq<char>, label: Seq<char>)
    requires
        list.suffixes().contains(text::lower(domain)),
    ensures
        list.blocks(domain),
        list.blocks(label + seq!['.'] + domain),
{
    lemma_suffix_blocks(list.exact(), list.suffixes(), domain, label);
}

proof fn lemma_suffix_blocks(
    exact: Set<Seq<char>>,
    suffixes: Set<Seq<char>>,
    domain: Seq<char>,
    label: Seq<char>,
)
    requires
        suffixes.contains(text::lower(domain)),
    ensures
        blocks(exact, suffixes, domain),
        blocks(exact, suffixes, label + seq!['.'] + domain),
{
    let name = text::lower(domain);
    assert(parent_at(name, 0));
    assert(name.skip(0) =~= name);
    let sub = text::lower(label + seq!['.'] + domain);
    let k = (label.len() + 1) as int;
    assert(sub[k - 1] == '.');
    assert(parent_at(sub, k));
    assert(sub.skip(k) =~= name);
}

/// A list without suffix entries blocks exactly the names it lists.
pub proof fn law_exact_entries_block_nothing_else(list: Blocklist, hostname: Seq<char>)
    requires
        list.suffixes().is_empty(),
    ensures
        list.blocks(hostname) == list.exact().contains(text::lower(hostname)),
{
}

/// A line `||domain^` blocks the domain and all its subdomains.
pub proof fn law_adblock_lines(domain: Seq<char>)
    requires
        valid_domain(domain),
    ensures
        line_entry(seq!['|', '|'] + domain + seq!['^']) == Some(
            Entry::DomainAndSubs(text::lower(domain)),
        ),
{
    let line = seq!['|', '|'] + domain + seq!['^'];
    let among = |c: char| seq!['^', '|'].contains(c);
    lemma_domain_has_no_space(domain);
    text::lemma_trimmed_bare(line);
    assert(line.skip(2) =~= domain.push('^'));
    assert(domain.push('^').drop_last() =~= domain);
    assert(among('^')) by {
        assert(seq!['^', '|'][0] == '^');
    }
    assert(!among(domain.last())) by {
        assert(domain_char(domain[domain.len() - 1]));
    }
    assert(text::trim_end_of(domain, among) == domain);
    assert(text::trim_end_of(domain.push('^'), among) == domain);
    text::lemma_trimmed_bare(domain);
    assert(adblock_domain(line) == text::lower(domain));
    lemma_lower_keeps_domains(domain);
}

/// A line that is a domain and nothing else blocks that name only.
pub proof fn law_domain_lines(domain: Seq<char>)
    requires
        valid_domain(domain),
    ensures
        line_entry(domain) == Some(Entry::Exact(text::lower(domain))),
{
    lemma_domain_has_no_space(domain);
    text::lemma_trimmed_bare(domain);
    text::lemma_one_word(domain);
    assert(domain_char(domain[0]));
    assert(!doubled(domain, '|') && !doubled(domain, '@'));
    lemma_lower_keeps_domains(domain);
}

/// A file with a line `||domain^` blocks the domain and all its subdomains.
pub proof fn law_adblock_files(
    input: Seq<u8>,
    from: int,
    to: int,
    domain: Seq<char>,
    label: Seq<char>,
)
    requires
        is_line(input, from, to),
        vstd::utf8::valid_utf8(input.subrange(from, to)),
        vstd::utf8::decode_utf8(input.subrange(from, to)) == seq!['|', '|'] + domain + seq!['^'],
        valid_domain(domain),
    ensures
        blocks(exact_entries(input), suffix_entries(input), domain),
        blocks(exact_entries(input), suffix_entries(input), label + seq!['.'] + domain),
{
    law_adblock_lines(domain);
    let entry = Entry::DomainAndSubs(text::lower(domain));
    assert(is_line(input, from, to) && bytes_entry(input.subrange(from, to)) == Some(entry));
    assert(suffix_entries(input).contains(text::lower(domain)));
    lemma_suffix_blocks(exact_entries(input), suffix_entries(input), domain, label);
}

/// A file with a line that is a domain blocks that name.
pub proof fn law_domain_files(input: Seq<u8>, from: int, to: int, domain: Seq<char>)
    requires
        is_line(input, from, to),
        vstd::utf8::valid_utf8(input.subrange(from, to)),
        vstd::utf8::decode_utf8(input.subrange(from, to)) == domain,
        valid_domain(domain),
    ensures
        blocks(exact_entries(input), suffix_entries(input), domain),
{
    law_domain_lines(domain);
    let entry = Entry::Exact(text::lower(domain));
    assert(is_line(input, from, to) && bytes_entry(input.subrange(from, to)) == Some(entry));
    assert(exact_entries(input).contains(text::lower(domain)));
}

/// A hosts-file line, an address and a domain, blocks that name only.
pub proof fn law_hosts_lines(address: Seq<char>, domain: Seq<char>)
    requires
        address.len() > 0,
        ip_like(address),
        forall|i: int|
            0 <= i < address.len() ==> domain_char(#[trigger] address[i]) || address[i] == ':',
        valid_domain(domain),
    ensures
        line_entry(address + seq![' '] + domain) == Some(Entry::Exact(text::lower(domain))),
{
    let line = address + seq![' '] + domain;
    lemma_domain_has_no_space(domain);
    assert forall|i: int| 0 <= i < address.len() implies !text::is_space(#[trigger] address[i]) by {
        assert(domain_char(address[i]) || address[i] == ':');
    }
    assert(line[0] == address[0]);
    assert(line.last() == domain.last());
    text::lemma_trimmed_bare(line);
    text::lemma_two_words(address, domain);
    assert(domain_char(address[0]) || address[0] == ':');
    lemma_lower_keeps_domains(domain);
}

/// An AdBlock exception, `@@` and whatever follows, blocks nothing.
pub proof fn law_exceptions_are_skipped(rule: Seq<char>)
    ensures
        line_entry(seq!['@', '@'] + rule) is None,
{
    let line = seq!['@', '@'] + rule;
    assert(line[0] == '@' && line[1] == '@');
    text::lemma_trim_end_keeps(line, |c: char| text::is_space(c), 1);
    assert(doubled(text::trimmed(line), '@'));
}

/// A line that starts with `#` or `!` is a comment and blocks nothing.
pub proof fn law_comments_are_skipped(mark: char, comment: Seq<char>)
    requires
        mark == '#' || mark == '!',
    ensures
        line_entry(seq![mark] + comment) is None,
{
    let line = seq![mark] + comment;
    assert(line[0] == mark);
    text::lemma_trimmed_keeps_start(line);
}

proof fn lemma_domain_has_no_space(domain: Seq<char>)
    requires
        valid_domain(domain),
    ensures
        domain.len() > 0,
        forall|i: int| 0 <= i < domain.len() ==> !text::is_space(#[trigger] domain[i]),
{
    assert forall|i: int| 0 <= i < domain.len() implies !text::is_space(#[trigger] domain[i]) by {
        assert(domain_char(domain[i]));
    }
}

proof fn lemma_lower_keeps_domains(domain: Seq<char>)
    requires
        valid_domain(domain),
    ensures
        valid_domain(text::lower(domain)),
{
    let name = text::lower(domain);
    let i = choose|i: int| 0 <= i < domain.len() && domain[i] == '.';
    assert(name[i] == '.');
    assert forall|j: int| 0 <= j < name.len() implies domain_char(#[trigger] name[j]) by {
        assert(domain_char(domain[j]));
    }
}

/// Whether a name is the domain, or ends with a dot and the domain.
pub open spec fn is_under(name: Seq<char>, domain: Seq<char>) -> bool {
    name == domain || exists|sub: Seq<char>| name == #[trigger] (sub + seq!['.']) + domain
}

/// A list blocks the names that are among its exact entries, and those that
/// are one of its suffix entries or end with a dot and one; in whatever case
/// the name is, and no others.
pub proof fn law_what_a_list_blocks(list: Blocklist, hostname: Seq<char>)
    ensures
        list.blocks(hostname) <==> list.exact().contains(text::lower(hostname)) || exists|
            domain: Seq<char>,
        |
            list.suffixes().contains(domain) && #[trigger] is_under(text::lower(hostname), domain),
{
    law_what_entries_block(list.exact(), list.suffixes(), hostname);
}

/// Exact entries block a name if it is among them, and suffix entries if it is
/// one of them or ends with a dot and one; and nothing else blocks it.
pub proof fn law_what_entries_block(
    exact: Set<Seq<char>>,
    suffixes: Set<Seq<char>>,
    hostname: Seq<char>,
)
    ensures
        blocks(exact, suffixes, hostname) <==> exact.contains(text::lower(hostname)) || exists|
            domain: Seq<char>,
        |
            suffixes.contains(domain) && #[trigger] is_under(text::lower(hostname), domain),
{
    let name = text::lower(hostname);
    if blocks(exact, suffixes, hostname) && !exact.contains(name) {
        let k = choose|k: int| #[trigger] parent_at(name, k) && suffixes.contains(name.skip(k));
        if k == 0 {
            assert(name.skip(0) =~= name);
        } else {
            assert(name =~= (name.take(k - 1) + seq!['.']) + name.skip(k));
        }
        assert(is_under(name, name.skip(k)));
    }
    if exists|domain: Seq<char>| suffixes.contains(domain) && #[trigger] is_under(name, domain) {
        let domain = choose|domain: Seq<char>|
            suffixes.contains(domain) && #[trigger] is_under(name, domain);
        if name == domain {
            assert(parent_at(name, 0));
            assert(name.skip(0) =~= name);
        } else {
            let sub = choose|sub: Seq<char>| name == #[trigger] (sub + seq!['.']) + domain;
            let k = (sub.len() + 1) as int;
            assert(name[k - 1] == '.');
            assert(parent_at(name, k));
            assert(name.skip(k) =~= domain);
        }
    }
}

/// An exact entry is no more than that name: whatever else a list holds, its
/// exact entries do not matter to a name that is not among them.
pub proof fn law_exact_entries_block_one_name(
    exact: Set<Seq<char>>,
    suffixes: Set<Seq<char>>,
    entry: Seq<char>,
    hostname: Seq<char>,
)
    requires
        entry != text::lower(hostname),
    ensures
        blocks(exact.insert(entry), suffixes, hostname) == blocks(exact, suffixes, hostname),
        blocks(exact.remove(entry), suffixes, hostname) == blocks(exact, suffixes, hostname),
        !exact.contains(text::lower(hostname)) ==> blocks(exact, suffixes, hostname) == blocks(
            Set::empty(),
            suffixes,
            hostname,
        ),
{
    law_what_entries_block(exact, suffixes, hostname);
    law_what_entries_block(exact.insert(entry), suffixes, hostname);
    law_what_entries_block(exact.remove(entry), suffixes, hostname);
    law_what_entries_block(Set::empty(), suffixes, hostname);
}

/// A domain has at most 253 characters, a dot is among them, and all of them
/// are ASCII letters, digits, hyphens and dots.
pub proof fn law_valid_domains(s: Seq<char>)
    ensures
        valid_domain(s) <==> {
            &&& s.len() <= 253
            &&& exists|i: int| 0 <= i < s.len() && #[trigger] s[i] == '.'
            &&& forall|i: int|
                0 <= i < s.len() ==> {
                    ||| #[trigger] s[i] == '-' || s[i] == '.'
                    ||| '0' <= s[i] <= '9'
                    ||| 'A' <= s[i] <= 'Z'
                    ||| 'a' <= s[i] <= 'z'
                }
        },
{
}

/// What passes for an address starts with a digit or has a colon in it.
pub proof fn law_addresses_in_lists(s: Seq<char>)
    ensures
        ip_like(s) <==> (s.len() > 0 && '0' <= s[0] <= '9') || exists|i: int|
            0 <= i < s.len() && #[trigger] s[i] == ':',
{
}

/// White space around a line does not matter, and a line of white space blocks
/// nothing.
pub proof fn law_white_space_around_lines(before: Seq<char>, line: Seq<char>, after: Seq<char>)
    requires
        text::all_space(before),
        text::all_space(after),
        line.len() > 0 ==> !text::is_space(line[0]) && !text::is_space(line.last()),
    ensures
        line_entry(before + line + after) == line_entry(line),
        line.len() == 0 ==> line_entry(before + line + after) is None,
{
    let none = Seq::<char>::empty();
    text::law_trimming(before, line, after);
    text::law_trimming(none, line, none);
    assert(none + line + none =~= line);
}

/// A line that starts with `||` blocks the domain between that and the `^` and
/// `|` at its end, with all its subdomains, in lower case; and nothing if that
/// is no domain.
pub proof fn law_adblock_rules(inner: Seq<char>, marks: Seq<char>)
    requires
        forall|i: int| 0 <= i < marks.len() ==> #[trigger] marks[i] == '^' || marks[i] == '|',
        inner.len() > 0 ==> inner.last() != '^' && inner.last() != '|',
        marks.len() == 0 && inner.len() > 0 ==> !text::is_space(inner.last()),
    ensures
        ({
            let domain = text::lower(text::trimmed(inner));
            line_entry(seq!['|', '|'] + inner + marks) == if valid_domain(domain) {
                Some(Entry::DomainAndSubs(domain))
            } else {
                None
            }
        }),
{
    let line = seq!['|', '|'] + inner + marks;
    let among = |c: char| seq!['^', '|'].contains(c);
    assert forall|c: char| #[trigger] among(c) <==> c == '^' || c == '|' by {
        assert(seq!['^', '|'][0] == '^' && seq!['^', '|'][1] == '|');
    }
    assert(line[0] == '|' && line[1] == '|');
    if marks.len() > 0 {
        assert(line.last() == marks[marks.len() - 1]);
    } else if inner.len() > 0 {
        assert(line.last() == inner.last());
    } else {
        assert(line.last() == line[1]);
    }
    text::lemma_trimmed_bare(line);
    let rest = line.skip(2);
    let n = inner.len() as int;
    assert(rest =~= inner + marks);
    assert forall|i: int| n <= i < rest.len() implies among(#[trigger] rest[i]) by {
        assert(rest[i] == marks[i - n]);
    }
    if n > 0 {
        assert(rest[n - 1] == inner.last());
    }
    text::law_trim_end(rest, among, n);
    assert(rest.take(n) =~= inner);
    assert(adblock_domain(line) == text::lower(text::trimmed(inner)));
}

/// Whether a line starts like a comment or an AdBlock rule.
pub open spec fn marked(line: Seq<char>) -> bool {
    ||| line.len() > 0 && (line[0] == '#' || line[0] == '!')
    ||| line.len() > 1 && line[0] == '|' && line[1] == '|'
    ||| line.len() > 1 && line[0] == '@' && line[1] == '@'
}

/// A line of one word blocks that name, in lower case, if it is a domain, and
/// nothing if not.
pub proof fn law_lines_of_one_word(word: Seq<char>)
    requires
        word.len() > 0,
        text::no_space(word),
        !marked(word),
    ensures
        line_entry(word) == if valid_domain(text::lower(word)) {
            Some(Entry::Exact(text::lower(word)))
        } else {
            None
        },
{
    assert(!text::is_space(word[0]) && !text::is_space(word[word.len() - 1]));
    text::lemma_trimmed_bare(word);
    text::lemma_one_word(word);
}

/// A line of an address and a domain, whatever white space is between them and
/// whatever follows, blocks that name, in lower case. A line of several words
/// of which the first is no address, or the second no domain, blocks nothing.
pub proof fn law_lines_of_several_words(
    first: Seq<char>,
    gap: char,
    more: Seq<char>,
    second: Seq<char>,
    rest: Seq<char>,
)
    requires
        first.len() > 0 && text::no_space(first) && !marked(first),
        text::is_space(gap),
        text::all_space(more),
        second.len() > 0 && text::no_space(second),
        rest.len() > 0 ==> text::is_space(rest[0]) && !text::is_space(rest.last()),
    ensures
        line_entry(first + seq![gap] + (more + second + rest)) == if ip_like(first)
            && valid_domain(text::lower(second)) {
            Some(Entry::Exact(text::lower(second)))
        } else {
            None
        },
{
    let none = Seq::<char>::empty();
    let tail = more + second + rest;
    let line = first + seq![gap] + tail;
    assert(line[0] == first[0] && !text::is_space(first[0]));
    if rest.len() > 0 {
        assert(line.last() == rest.last());
    } else {
        assert(line.last() == second[second.len() - 1]);
    }
    text::lemma_trimmed_bare(line);
    text::law_words(none, first, gap, tail);
    assert(none + first + seq![gap] + tail =~= line);
    if rest.len() > 0 {
        text::law_words(more, second, rest[0], rest.skip(1));
        assert(tail =~= more + second + seq![rest[0]] + rest.skip(1));
    } else {
        text::law_words(more, second, gap, none);
        assert(tail =~= more + second);
    }
    let w = text::words(line);
    assert(w.len() >= 2 && w[0] == first && w[1] == second);
    if line.len() > 1 && first.len() > 1 {
        assert(line[1] == first[1]);
    } else {
        assert(line[1] == gap);
    }
}

/// A file is read line by line: what two parts with a line feed between them
/// block is what the one blocks and what the other does.
pub proof fn law_files_are_read_by_lines(a: Seq<u8>, b: Seq<u8>, line: Seq<u8>, entry: Entry)
    requires
        !line.contains(10),
    ensures
        listed(a + seq![10u8] + b, entry) <==> listed(a, entry) || listed(b, entry),
        listed(line, entry) <==> bytes_entry(line) == Some(entry),
{
    let all = a + seq![10u8] + b;
    let n = (a.len() + 1) as int;
    if listed(all, entry) {
        let (from, to) = choose|from: int, to: int| #[trigger]
            is_line(all, from, to) && bytes_entry(all.subrange(from, to)) == Some(entry);
        assert(all[n - 1] == 10);
        if from < n {
            assert(to <= a.len());
            assert(is_line(a, from, to)) by {
                assert forall|i: int| from <= i < to implies a[i] != 10 by {
                    assert(all[i] != 10);
                }
                if from > 0 {
                    assert(all[from - 1] == a[from - 1]);
                }
                if to < a.len() {
                    assert(all[to] == a[to]);
                }
            }
            assert(all.subrange(from, to) =~= a.subrange(from, to));
        } else {
            assert(is_line(b, from - n, to - n)) by {
                assert forall|i: int| from - n <= i < to - n implies b[i] != 10 by {
                    assert(all[i + n] != 10);
                }
                if from > n {
                    assert(all[from - 1] == b[from - n - 1]);
                }
                if to < all.len() {
                    assert(all[to] == b[to - n]);
                }
            }
            assert(all.subrange(from, to) =~= b.subrange(from - n, to - n));
        }
    }
    if listed(a, entry) {
        let (from, to) = choose|from: int, to: int| #[trigger]
            is_line(a, from, to) && bytes_entry(a.subrange(from, to)) == Some(entry);
        assert(is_line(all, from, to)) by {
            assert forall|i: int| from <= i < to implies all[i] != 10 by {
                assert(all[i] == a[i]);
            }
        }
        assert(all.subrange(from, to) =~= a.subrange(from, to));
    }
    if listed(b, entry) {
        let (from, to) = choose|from: int, to: int| #[trigger]
            is_line(b, from, to) && bytes_entry(b.subrange(from, to)) == Some(entry);
        assert(is_line(all, from + n, to + n)) by {
            assert forall|i: int| from + n <= i < to + n implies all[i] != 10 by {
                assert(all[i] == b[i - n]);
            }
        }
        assert(all.subrange(from + n, to + n) =~= b.subrange(from, to));
    }
    let k = line.len() as int;
    assert(is_line(line, 0, k)) by {
        assert forall|i: int| 0 <= i < k implies line[i] != 10 by {
            assert(line.contains(line[i]));
        }
    }
    assert(line.subrange(0, k) =~= line);
    if listed(line, entry) {
        let (from, to) = choose|from: int, to: int| #[trigger]
            is_line(line, from, to) && bytes_entry(line.subrange(from, to)) == Some(entry);
        if from > 0 {
            assert(line.contains(line[from - 1]));
        }
        if to < k {
            assert(line.contains(line[to]));
        }
    }
}

/// The entries of a file are those of its lines, the exact ones apart from the
/// others; a line that is not UTF-8 has none.
pub proof fn law_entries_of_files(input: Seq<u8>, domain: Seq<char>, line: Seq<u8>)
    ensures
        exact_entries(input).contains(domain) <==> listed(input, Entry::Exact(domain)),
        suffix_entries(input).contains(domain) <==> listed(input, Entry::DomainAndSubs(domain)),
        vstd::utf8::valid_utf8(line) ==> bytes_entry(line) == line_entry(
            vstd::utf8::decode_utf8(line),
        ),
        !vstd::utf8::valid_utf8(line) ==> bytes_entry(line) is None,
{
}

} // verus!
