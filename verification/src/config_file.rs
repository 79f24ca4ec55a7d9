//! What is kept between runs: the tracked projects and the overrides.

use vstd::prelude::*;
use vstd::string::StringExecFns;
use crate::reference::{has_text, texts};
use crate::text::{
    chars_of, find_from, first_index, has_prefix, is_first_index, lemma_first_index, range_starts,
    split, text_between,
};

verus! {

/// The kept configuration.
#[derive(Debug)]
pub struct ConfigFile {
    /// The roots of the tracked projects.
    pub directory: Vec<String>,
    /// Package names to count as referenced whatever the lock files say.
    pub added: Vec<String>,
    /// Package names to count as unreferenced whatever the lock files say.
    pub removed: Vec<String>,
}

/// Which parts of the configuration to print.
#[derive(Clone, Copy, Debug)]
pub struct QueryFlags {
    /// The query subcommand was given.
    pub query: bool,
    pub directory: bool,
    pub added: bool,
    pub removed: bool,
}

/// `list` if `wanted`, else nothing.
pub open spec fn lines_when(wanted: bool, list: Seq<Seq<char>>) -> Seq<Seq<char>> {
    if wanted {
        list
    } else {
        Seq::empty()
    }
}

fn append_copies(out: &mut Vec<String>, list: &Vec<String>)
    ensures
        texts(final(out)@) == texts(old(out)@) + texts(list@),
{
    let ghost start = texts(out@);
    let mut i: usize = 0;
    assert(texts(out@) =~= start + texts(list@).take(0));
    while i < list.len()
        invariant
            i <= list.len(),
            texts(out@) == start + texts(list@).take(i as int),
        decreases list.len() - i,
    {
        let ghost before = texts(out@);
        out.push(list[i].clone());
        assert(texts(out@) =~= before.push(list@[i as int]@));
        assert(texts(list@).take(i + 1) =~= texts(list@).take(i as int).push(list@[i as int]@));
        i += 1;
    }
    assert(texts(list@).take(i as int) =~= texts(list@));
}

/// The lines that the query subcommand prints: the tracked projects, the
/// added names and the removed names, each where asked for, in this order;
/// nothing where the subcommand was not given.
pub fn query_subcommand(flags: &QueryFlags, config_file: &ConfigFile) -> (r: Vec<String>)
    ensures
        texts(r@) == lines_when(flags.query && flags.directory, texts(config_file.directory@))
            + lines_when(flags.query && flags.added, texts(config_file.added@)) + lines_when(
            flags.query && flags.removed,
            texts(config_file.removed@),
        ),
{
    let mut out: Vec<String> = Vec::new();
    assert(texts(out@) =~= Seq::<Seq<char>>::empty());
    if flags.query {
        if flags.directory {
            append_copies(&mut out, &config_file.directory);
        }
        if flags.added {
            append_copies(&mut out, &config_file.added);
        }
        if flags.removed {
            append_copies(&mut out, &config_file.removed);
        }
    }
    assert(texts(out@) =~= lines_when(
        flags.query && flags.directory,
        texts(config_file.directory@),
    ) + lines_when(flags.query && flags.added, texts(config_file.added@)) + lines_when(
        flags.query && flags.removed,
        texts(config_file.removed@),
    ));
    out
}

/// The kept configuration as contracts see it.
pub struct Config {
    pub directory: Seq<Seq<char>>,
    pub added: Seq<Seq<char>>,
    pub removed: Seq<Seq<char>>,
}

impl View for ConfigFile {
    type V = Config;

    open spec fn view(&self) -> Config {
        Config {
            directory: texts(self.directory@),
            added: texts(self.added@),
            removed: texts(self.removed@),
        }
    }
}

/// The configuration after one more line of the file was read. A line is a
/// key, a blank and a value; a line with another key, or with none, is
/// passed over.
pub open spec fn config_step(c: Config, line: Seq<char>) -> Config {
    if has_prefix(line, "directory "@) {
        Config { directory: c.directory.push(line.skip("directory "@.len() as int)), ..c }
    } else if has_prefix(line, "added "@) {
        Config { added: c.added.push(line.skip("added "@.len() as int)), ..c }
    } else if has_prefix(line, "removed "@) {
        Config { removed: c.removed.push(line.skip("removed "@.len() as int)), ..c }
    } else {
        c
    }
}

/// The configuration that the lines write.
pub open spec fn config_fold(lines: Seq<Seq<char>>) -> Config
    decreases lines.len(),
{
    if lines.len() == 0 {
        Config { directory: Seq::empty(), added: Seq::empty(), removed: Seq::empty() }
    } else {
        config_step(config_fold(lines.drop_last()), lines.last())
    }
}

/// The lines that write the values under a key.
pub open spec fn written(key: Seq<char>, values: Seq<Seq<char>>) -> Seq<char>
    decreases values.len(),
{
    if values.len() == 0 {
        Seq::empty()
    } else {
        written(key, values.drop_last()) + key + values.last() + seq!['\n']
    }
}

fn write_values(out: &mut String, key: &str, values: &Vec<String>)
    ensures
        final(out)@ == old(out)@ + written(key@, texts(values@)),
{
    let ghost start = out@;
    let mut i: usize = 0;
    assert(texts(values@).take(0) =~= Seq::<Seq<char>>::empty());
    assert(out@ =~= start + written(key@, texts(values@).take(0)));
    while i < values.len()
        invariant
            i <= values.len(),
            out@ == start + written(key@, texts(values@).take(i as int)),
        decreases values.len() - i,
    {
        let ghost done = texts(values@).take(i as int);
        proof {
            assert(texts(values@).take(i + 1).drop_last() =~= done);
            assert(texts(values@).take(i + 1).last() == values@[i as int]@);
            reveal_strlit("\n");
            assert("\n"@ =~= seq!['\n']);
        }
        out.append(key);
        out.append(values[i].as_str());
        out.append("\n");
        assert(out@ =~= start + written(key@, texts(values@).take(i + 1)));
        i += 1;
    }
    assert(texts(values@).take(i as int) =~= texts(values@));
}

impl ConfigFile {
    /// A configuration without tracked projects and without overrides.
    pub fn new() -> (r: ConfigFile)
        ensures
            r@ == (Config { directory: Seq::empty(), added: Seq::empty(), removed: Seq::empty() }),
    {
        let r = ConfigFile { directory: Vec::new(), added: Vec::new(), removed: Vec::new() };
        assert(r@.directory =~= Seq::<Seq<char>>::empty());
        assert(r@.added =~= Seq::<Seq<char>>::empty());
        assert(r@.removed =~= Seq::<Seq<char>>::empty());
        r
    }

    /// Tracks one more project; a project that is tracked already is not
    /// added again. Tells whether the configuration changed.
    pub fn track(&mut self, directory: String) -> (changed: bool)
        ensures
            changed == !old(self)@.directory.contains(directory@),
            final(self)@.directory == if changed {
                old(self)@.directory.push(directory@)
            } else {
                old(self)@.directory
            },
            final(self)@.added == old(self)@.added,
            final(self)@.removed == old(self)@.removed,
    {
        if has_text(&self.directory, &directory) {
            return false;
        }
        let ghost before = texts(self.directory@);
        self.directory.push(directory);
        assert(texts(self.directory@) =~= before.push(directory@));
        true
    }

    /// Reads the text of a config file, line by line.
    pub fn parse(text: &str) -> (r: ConfigFile)
        ensures
            r@ == config_fold(split(text@, '\n')),
    {
        let chars = chars_of(text);
        let directory = chars_of("directory ");
        let added = chars_of("added ");
        let removed = chars_of("removed ");
        let mut config = ConfigFile::new();
        let ghost mut done: Seq<Seq<char>> = Seq::empty();
        let mut start: usize = 0;
        assert(chars@.skip(0) =~= chars@);
        assert(done + split(chars@, '\n') =~= split(chars@, '\n'));
        loop
            invariant_except_break
                split(chars@, '\n') == done + split(chars@.skip(start as int), '\n'),
            invariant
                chars@ == text@,
                start <= chars.len(),
                directory@ == "directory "@,
                added@ == "added "@,
                removed@ == "removed "@,
                config@ == config_fold(done),
            ensures
                split(chars@, '\n') == done,
                config@ == config_fold(done),
            decreases chars.len() - start,
        {
            let at = find_from(&chars, start, '\n');
            let ghost rest = chars@.skip(start as int);
            let ghost line = chars@.subrange(start as int, at as int);
            assert(rest.take(at - start) =~= line);
            let ghost before = config@;
            if range_starts(&chars, start, at, &directory) {
                let value = text_between(text, start + directory.len(), at);
                assert(value@ =~= line.skip(directory.len() as int));
                config.directory.push(value);
                assert(config@.directory =~= before.directory.push(value@));
            } else if range_starts(&chars, start, at, &added) {
                let value = text_between(text, start + added.len(), at);
                assert(value@ =~= line.skip(added.len() as int));
                config.added.push(value);
                assert(config@.added =~= before.added.push(value@));
            } else if range_starts(&chars, start, at, &removed) {
                let value = text_between(text, start + removed.len(), at);
                assert(value@ =~= line.skip(removed.len() as int));
                config.removed.push(value);
                assert(config@.removed =~= before.removed.push(value@));
            }
            proof {
                assert(done.push(line).drop_last() =~= done);
                assert(done.push(line).last() == line);
                done = done.push(line);
            }
            if at == chars.len() {
                assert(rest.take(at - start) =~= rest);
                assert(split(chars@, '\n') =~= done);
                break;
            }
            assert(rest.skip(at - start + 1) =~= chars@.skip(at + 1));
            assert(split(chars@, '\n') =~= done + split(chars@.skip(at + 1), '\n'));
            start = at + 1;
        }
        config
    }

    /// The text of the config file: one line per tracked project, then one
    /// per added name, then one per removed name.
    pub fn render(&self) -> (r: String)
        ensures
            r@ == rendered(self@),
    {
        let mut out = String::new();
        write_values(&mut out, "directory ", &self.directory);
        write_values(&mut out, "added ", &self.added);
        write_values(&mut out, "removed ", &self.removed);
        assert(out@ =~= written("directory "@, self@.directory) + written("added "@, self@.added)
            + written("removed "@, self@.removed));
        out
    }
}

/// The text that `render` writes for a configuration.
pub open spec fn rendered(c: Config) -> Seq<char> {
    written("directory "@, c.directory) + written("added "@, c.added) + written(
        "removed "@,
        c.removed,
    )
}

/// No value holds a line break.
pub open spec fn single_lines(values: Seq<Seq<char>>) -> bool {
    forall|i: int, j: int|
        0 <= i < values.len() && 0 <= j < values[i].len() ==> (#[trigger] values[i][j]) != '\n'
}

/// What is written is read back as it was: a configuration in which no
/// value holds a line break is the one that its text writes.
pub proof fn lemma_written_is_read_back(c: Config)
    requires
        single_lines(c.directory),
        single_lines(c.added),
        single_lines(c.removed),
    ensures
        config_fold(split(rendered(c), '\n')) == c,
{
    reveal_strlit("directory ");
    reveal_strlit("added ");
    reveal_strlit("removed ");
    let kd = "directory "@;
    let ka = "added "@;
    let kr = "removed "@;
    let none = Seq::<char>::empty();
    let start = Config { directory: Seq::empty(), added: Seq::empty(), removed: Seq::empty() };
    // The text splits into one line per value and an empty line at the end.
    assert(split(none, '\n') =~= seq![none]) by {
        assert(is_first_index(none, '\n', 0));
        lemma_first_index(none, '\n', 0);
    }
    lemma_split_written(kr, c.removed, none);
    lemma_split_written(ka, c.added, written(kr, c.removed) + none);
    lemma_split_written(kd, c.directory, written(ka, c.added) + (written(kr, c.removed) + none));
    assert(rendered(c) =~= written(kd, c.directory) + (written(ka, c.added) + (written(
        kr,
        c.removed,
    ) + none)));
    let d = lines_under(kd, c.directory);
    let a = lines_under(ka, c.added);
    let r = lines_under(kr, c.removed);
    assert(split(rendered(c), '\n') =~= ((d + a) + r) + seq![none]);
    // Reading those lines gives the values back, key by key.
    lemma_fold_continues(Seq::empty(), d);
    assert(Seq::<Seq<char>>::empty() + d =~= d);
    lemma_fold_continues(d, a);
    lemma_fold_continues(d + a, r);
    lemma_fold_continues((d + a) + r, seq![none]);
    lemma_read_directories(start, c.directory);
    let c1 = Config { directory: c.directory, ..start };
    assert(start.directory + c.directory =~= c.directory);
    lemma_read_added(c1, c.added);
    let c2 = Config { added: c.added, ..c1 };
    assert(c1.added + c.added =~= c.added);
    lemma_read_removed(c2, c.removed);
    assert(c2.removed + c.removed =~= c.removed);
    assert(config_fold(Seq::<Seq<char>>::empty()) == start);
    assert(config_fold(d) == c1);
    assert(config_fold(d + a) == c2);
    let c3 = Config { removed: c.removed, ..c2 };
    assert(config_fold((d + a) + r) == c3);
    assert(c3 == c);
    assert(seq![none].drop_last() =~= Seq::<Seq<char>>::empty());
    assert(seq![none].last() == none);
    assert(!has_prefix(none, kd) && !has_prefix(none, ka) && !has_prefix(none, kr));
    assert(config_fold_from(c3, seq![none]) == config_step(
        config_fold_from(c3, seq![none].drop_last()),
        none,
    ));
    assert(config_fold_from(c3, Seq::<Seq<char>>::empty()) == c3);
    assert(config_fold(((d + a) + r) + seq![none]) == c3);
}

/// The lines that write the values under a key, one per value.
pub open spec fn lines_under(key: Seq<char>, values: Seq<Seq<char>>) -> Seq<Seq<char>> {
    values.map_values(|v: Seq<char>| key + v)
}

/// The configuration after `lines` were read on top of `c`.
pub open spec fn config_fold_from(c: Config, lines: Seq<Seq<char>>) -> Config
    decreases lines.len(),
{
    if lines.len() == 0 {
        c
    } else {
        config_step(config_fold_from(c, lines.drop_last()), lines.last())
    }
}

proof fn lemma_fold_continues(first: Seq<Seq<char>>, then: Seq<Seq<char>>)
    ensures
        config_fold(first + then) == config_fold_from(config_fold(first), then),
    decreases then.len(),
{
    if then.len() == 0 {
        assert(first + then =~= first);
    } else {
        lemma_fold_continues(first, then.drop_last());
        assert((first + then).drop_last() =~= first + then.drop_last());
        assert((first + then).last() == then.last());
    }
}

proof fn lemma_split_line(line: Seq<char>, rest: Seq<char>)
    requires
        forall|j: int| 0 <= j < line.len() ==> line[j] != '\n',
    ensures
        split(line + seq!['\n'] + rest, '\n') == seq![line] + split(rest, '\n'),
{
    let text = line + seq!['\n'] + rest;
    assert(is_first_index(text, '\n', line.len() as int));
    lemma_first_index(text, '\n', line.len() as int);
    assert(text.take(line.len() as int) =~= line);
    assert(text.skip(line.len() as int + 1) =~= rest);
}

proof fn lemma_split_written(key: Seq<char>, values: Seq<Seq<char>>, rest: Seq<char>)
    requires
        single_lines(values),
        forall|j: int| 0 <= j < key.len() ==> key[j] != '\n',
    ensures
        split(written(key, values) + rest, '\n') == lines_under(key, values) + split(rest, '\n'),
    decreases values.len(),
{
    if values.len() == 0 {
        assert(written(key, values) + rest =~= rest);
        assert(lines_under(key, values) + split(rest, '\n') =~= split(rest, '\n'));
    } else {
        let front = values.drop_last();
        let line = key + values.last();
        assert(single_lines(front)) by {
            assert forall|i: int, j: int|
                0 <= i < front.len() && 0 <= j < front[i].len() implies (#[trigger] front[i][j])
                != '\n' by {
                assert(values[i][j] != '\n');
            }
        }
        assert forall|j: int| 0 <= j < line.len() implies line[j] != '\n' by {
            if j >= key.len() {
                assert(values[values.len() - 1][j - key.len()] != '\n');
            }
        }
        lemma_split_written(key, front, line + seq!['\n'] + rest);
        lemma_split_line(line, rest);
        assert(written(key, values) + rest =~= written(key, front) + (line + seq!['\n'] + rest));
        assert(lines_under(key, values) =~= lines_under(key, front).push(line));
        assert(lines_under(key, front) + (seq![line] + split(rest, '\n')) =~= lines_under(
            key,
            values,
        ) + split(rest, '\n'));
    }
}

proof fn lemma_read_directories(c: Config, values: Seq<Seq<char>>)
    ensures
        config_fold_from(c, lines_under("directory "@, values)) == (Config {
            directory: c.directory + values,
            ..c
        }),
    decreases values.len(),
{
    let key = "directory "@;
    if values.len() == 0 {
        assert(c.directory + values =~= c.directory);
    } else {
        lemma_read_directories(c, values.drop_last());
        let line = key + values.last();
        assert(lines_under(key, values).drop_last() =~= lines_under(key, values.drop_last()));
        assert(lines_under(key, values).last() == line);
        assert(line.take(key.len() as int) =~= key);
        assert(line.skip(key.len() as int) =~= values.last());
        assert((c.directory + values.drop_last()).push(values.last()) =~= c.directory + values);
    }
}

proof fn lemma_read_added(c: Config, values: Seq<Seq<char>>)
    ensures
        config_fold_from(c, lines_under("added "@, values)) == (Config {
            added: c.added + values,
            ..c
        }),
    decreases values.len(),
{
    reveal_strlit("directory ");
    reveal_strlit("added ");
    let key = "added "@;
    if values.len() == 0 {
        assert(c.added + values =~= c.added);
    } else {
        lemma_read_added(c, values.drop_last());
        let line = key + values.last();
        assert(lines_under(key, values).drop_last() =~= lines_under(key, values.drop_last()));
        assert(lines_under(key, values).last() == line);
        assert(line.take(key.len() as int) =~= key);
        assert(line.skip(key.len() as int) =~= values.last());
        assert(!has_prefix(line, "directory "@)) by {
            if has_prefix(line, "directory "@) {
                assert(line.take("directory "@.len() as int)[0] == 'd');
                assert(line[0] == 'a');
            }
        }
        assert((c.added + values.drop_last()).push(values.last()) =~= c.added + values);
    }
}

proof fn lemma_read_removed(c: Config, values: Seq<Seq<char>>)
    ensures
        config_fold_from(c, lines_under("removed "@, values)) == (Config {
            removed: c.removed + values,
            ..c
        }),
    decreases values.len(),
{
    reveal_strlit("directory ");
    reveal_strlit("added ");
    reveal_strlit("removed ");
    let key = "removed "@;
    if values.len() == 0 {
        assert(c.removed + values =~= c.removed);
    } else {
        lemma_read_removed(c, values.drop_last());
        let line = key + values.last();
        assert(lines_under(key, values).drop_last() =~= lines_under(key, values.drop_last()));
        assert(lines_under(key, values).last() == line);
        assert(line.take(key.len() as int) =~= key);
        assert(line.skip(key.len() as int) =~= values.last());
        assert(!has_prefix(line, "directory "@)) by {
            if has_prefix(line, "directory "@) {
                assert(line.take("directory "@.len() as int)[0] == 'd');
                assert(line[0] == 'r');
            }
        }
        assert(!has_prefix(line, "added "@)) by {
            if has_prefix(line, "added "@) {
                assert(line.take("added "@.len() as int)[0] == 'a');
                assert(line[0] == 'r');
            }
        }
        assert((c.removed + values.drop_last()).push(values.last()) =~= c.removed + values);
    }
}

} // verus!
