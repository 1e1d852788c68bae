use vstd::prelude::*;
use crate::types::{GroupChargeOptions, decimal, push_decimal, str_eq};

verus! {

/// One registry entry as a value: the key, the group's behaviour, and the slot
/// where the caller keeps the group's dissociation constant.
pub type EntryModel = (Seq<char>, GroupChargeOptions, usize);

/// A registry of ionisable groups by name. Each entry holds its key, its
/// group's behaviour, and the slot of its dissociation constant in a table
/// that the caller keeps.
pub struct Registry {
    pub entries: Vec<(String, GroupChargeOptions, usize)>,
}

impl View for Registry {
    type V = Seq<EntryModel>;

    open spec fn view(&self) -> Seq<EntryModel> {
        self.entries@.map_values(|e: (String, GroupChargeOptions, usize)| (e.0@, e.1, e.2))
    }
}

/// The slot of the last entry keyed `key`, if any.
pub open spec fn lookup(entries: Seq<EntryModel>, key: Seq<char>) -> Option<usize>
    decreases entries.len(),
{
    if entries.len() == 0 {
        None
    } else if entries.last().0 == key {
        Some(entries.last().2)
    } else {
        lookup(entries.drop_last(), key)
    }
}

/// Whether some entry is keyed `key`.
pub open spec fn has_key(entries: Seq<EntryModel>, key: Seq<char>) -> bool {
    exists|i: int| 0 <= i < entries.len() && (#[trigger] entries[i]).0 == key
}

/// The key of a single-character residue code.
pub open spec fn code_key(b: u8) -> Seq<char> {
    seq![b as char]
}

/// The slots of the residues of `sequence` that the registry names, in order;
/// residues that it does not name are skipped.
pub open spec fn resolved(entries: Seq<EntryModel>, sequence: Seq<u8>) -> Seq<usize>
    decreases sequence.len(),
{
    if sequence.len() == 0 {
        Seq::empty()
    } else {
        let rest = resolved(entries, sequence.drop_last());
        match lookup(entries, code_key(sequence.last())) {
            Some(slot) => rest.push(slot),
            None => rest,
        }
    }
}

/// The message for a key that is registered twice.
pub open spec fn duplicate_key_error(key: Seq<char>, line_idx: nat) -> Seq<char> {
    "[ Config::build ] Key "@ + key + " already exists at line index "@ + decimal(line_idx) + "!"@
}

proof fn lemma_lookup_has_key(entries: Seq<EntryModel>, key: Seq<char>)
    ensures
        lookup(entries, key) is Some <==> has_key(entries, key),
    decreases entries.len(),
{
    if entries.len() > 0 {
        let init = entries.drop_last();
        lemma_lookup_has_key(init, key);
        if has_key(init, key) {
            let i = choose|i: int| 0 <= i < init.len() && (#[trigger] init[i]).0 == key;
            assert(entries[i] == init[i]);
        }
        if has_key(entries, key) && entries.last().0 != key {
            let i = choose|i: int| 0 <= i < entries.len() && (#[trigger] entries[i]).0 == key;
            assert(init[i] == entries[i]);
        }
    }
}

impl Registry {
    /// The keys are pairwise distinct.
    pub open spec fn wf(&self) -> bool {
        forall|i: int, j: int|
            0 <= i < j < self@.len() ==> (#[trigger] self@[i]).0 != (#[trigger] self@[j]).0
    }

    /// An empty registry.
    pub fn new() -> (r: Registry)
        ensures
            r@.len() == 0,
            r.wf(),
    {
        Registry { entries: Vec::new() }
    }

    /// The slot of the entry keyed `key`, if any.
    pub fn find_slot(&self, key: &str) -> (r: Option<usize>)
        ensures
            r == lookup(self@, key@),
    {
        let mut found: Option<usize> = None;
        let mut i: usize = 0;
        while i < self.entries.len()
            invariant
                i <= self@.len(),
                self@.len() == self.entries@.len(),
                found == lookup(self@.take(i as int), key@),
            decreases self@.len() - i,
        {
            let entry = &self.entries[i];
            assert(self@[i as int] == (entry.0@, entry.1, entry.2));
            assert(self@.take(i + 1).drop_last() =~= self@.take(i as int));
            assert(self@.take(i + 1).last() == self@[i as int]);
            if str_eq(entry.0.as_str(), key) {
                found = Some(entry.2);
            }
            i += 1;
        }
        assert(self@.take(i as int) =~= self@);
        found
    }

    /// The slot of the entry keyed by the single character `b`, if any.
    pub fn find_code_slot(&self, b: u8) -> (r: Option<usize>)
        ensures
            r == lookup(self@, code_key(b)),
    {
        let c: char = b as char;
        let mut found: Option<usize> = None;
        let mut i: usize = 0;
        while i < self.entries.len()
            invariant
                c == b as char,
                i <= self@.len(),
                self@.len() == self.entries@.len(),
                found == lookup(self@.take(i as int), code_key(b)),
            decreases self@.len() - i,
        {
            let entry = &self.entries[i];
            assert(self@[i as int] == (entry.0@, entry.1, entry.2));
            assert(self@.take(i + 1).drop_last() =~= self@.take(i as int));
            assert(self@.take(i + 1).last() == self@[i as int]);
            let key = entry.0.as_str();
            if key.unicode_len() == 1 && key.get_char(0) == c {
                assert(key@ =~= code_key(b));
                found = Some(entry.2);
            } else {
                assert(key@ != code_key(b)) by {
                    if key@.len() == 1 {
                        assert(code_key(b)[0] == c);
                    }
                }
            }
            i += 1;
        }
        assert(self@.take(i as int) =~= self@);
        found
    }
}

/// Registers the group `prefix + name` with behaviour `gco` and constant slot
/// `slot`; `line_idx` is the registry line it comes from, quoted in the error.
/// A key that is already registered is refused and the registry is left as it
/// was.
pub fn insert_group(
    reg: &mut Registry,
    prefix: &str,
    name: &str,
    gco: GroupChargeOptions,
    slot: usize,
    line_idx: usize,
) -> (r: Result<(), String>)
    requires
        old(reg).wf(),
    ensures
        final(reg).wf(),
        r is Err <==> has_key(old(reg)@, prefix@ + name@),
        r matches Err(msg) ==> msg@ == duplicate_key_error(prefix@ + name@, line_idx as nat)
            && final(reg)@ == old(reg)@,
        r is Ok ==> final(reg)@ == old(reg)@.push((prefix@ + name@, gco, slot)),
{
    let mut key = String::from_str(prefix);
    key.append(name);
    proof {
        lemma_lookup_has_key(reg@, key@);
    }
    if reg.find_slot(key.as_str()).is_some() {
        let mut msg = String::from_str("[ Config::build ] Key ");
        msg.append(key.as_str());
        msg.append(" already exists at line index ");
        push_decimal(&mut msg, line_idx);
        msg.append("!");
        return Err(msg);
    }
    let ghost before = reg@;
    let ghost k = key@;
    reg.entries.push((key, gco, slot));
    assert(reg@ =~= before.push((k, gco, slot)));
    assert forall|i: int, j: int| 0 <= i < j < reg@.len() implies (#[trigger] reg@[i]).0 != (
    #[trigger] reg@[j]).0 by {
        if j == before.len() {
            assert(reg@[i] == before[i]);
            assert(!has_key(before, k));
        } else {
            assert(reg@[i] == before[i]);
            assert(reg@[j] == before[j]);
        }
    }
    Ok(())
}

/// Resolves a sequence of single-character residue codes against the
/// registry: the slot of each residue that the registry names, in order.
/// Residues that it does not name are skipped, not refused.
pub fn parse_sequence(reg: &Registry, sequence: &[u8]) -> (r: Vec<usize>)
    ensures
        r@ == resolved(reg@, sequence@),
{
    let mut output: Vec<usize> = Vec::new();
    let mut i: usize = 0;
    while i < sequence.len()
        invariant
            i <= sequence@.len(),
            output@ == resolved(reg@, sequence@.take(i as int)),
        decreases sequence@.len() - i,
    {
        let b = sequence[i];
        assert(sequence@.take(i + 1).drop_last() =~= sequence@.take(i as int));
        assert(sequence@.take(i + 1).last() == b);
        match reg.find_code_slot(b) {
            Some(slot) => output.push(slot),
            None => {},
        }
        i += 1;
    }
    assert(sequence@.take(i as int) =~= sequence@);
    output
}

/// Whether a registry line carries data: it is not empty and does not start
/// with `#`.
pub open spec fn is_data_line(line: Seq<char>) -> bool {
    line.len() > 0 && line[0] != '#'
}

/// The data lines of `lines`, each with its index among all lines, in order.
pub open spec fn kept_lines(lines: Seq<Seq<char>>) -> Seq<(usize, Seq<char>)>
    decreases lines.len(),
{
    if lines.len() == 0 {
        Seq::empty()
    } else {
        let rest = kept_lines(lines.drop_last());
        if is_data_line(lines.last()) {
            rest.push(((lines.len() - 1) as usize, lines.last()))
        } else {
            rest
        }
    }
}

/// The views of indexed lines.
pub open spec fn indexed_views(v: Seq<(usize, &str)>) -> Seq<(usize, Seq<char>)> {
    v.map_values(|e: (usize, &str)| (e.0, e.1@))
}

/// The message for a registry with no data line.
pub open spec fn no_valid_lines_error() -> Seq<char> {
    "[ Config::build ] The config file does not contain any valid lines!"@
}

/// Keeps the data lines of a registry file, each with its index; a file
/// without any is refused.
pub fn valid_lines<'a>(lines: &Vec<&'a str>) -> (r: Result<Vec<(usize, &'a str)>, String>)
    ensures
        r is Err <==> kept_lines(lines@.map_values(|l: &str| l@)).len() == 0,
        r matches Ok(v) ==> indexed_views(v@) == kept_lines(lines@.map_values(|l: &str| l@)),
        r matches Err(msg) ==> msg@ == no_valid_lines_error(),
{
    let ghost all = lines@.map_values(|l: &str| l@);
    let mut kept: Vec<(usize, &'a str)> = Vec::new();
    let mut i: usize = 0;
    while i < lines.len()
        invariant
            all == lines@.map_values(|l: &str| l@),
            i <= lines@.len(),
            indexed_views(kept@) == kept_lines(all.take(i as int)),
        decreases lines@.len() - i,
    {
        let line = lines[i];
        assert(all.take(i + 1).drop_last() =~= all.take(i as int));
        assert(all.take(i + 1).last() == line@);
        assert(all.take(i + 1).len() == i + 1);
        let n: usize = line.unicode_len();
        if n > 0 && line.get_char(0) != '#' {
            let ghost before = kept@;
            kept.push((i, line));
            assert(indexed_views(kept@) =~= indexed_views(before).push((i, line@)));
        }
        i += 1;
    }
    assert(all.take(i as int) =~= all);
    if kept.len() == 0 {
        return Err(String::from_str("[ Config::build ] The config file does not contain any valid lines!"));
    }
    Ok(kept)
}

} // verus!
