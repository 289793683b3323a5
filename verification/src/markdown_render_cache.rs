//! Small render cache shared by finalized source-backed markdown history cells.

use std::sync::Arc;

use vstd::prelude::*;

use crate::history_cell;

verus! {

#[derive(Clone, Copy, Debug, PartialEq, Eq, Structural)]
pub enum StdoutColorLevel {
    TrueColor,
    Ansi256,
    Ansi16,
    Unknown,
}

#[derive(Clone, Copy, Debug, PartialEq, Eq, Structural)]
pub struct Rgb {
    pub red: u8,
    pub green: u8,
    pub blue: u8,
}

/// What the rendering of a message depends on besides its source.
#[derive(Clone, Copy, Debug)]
pub struct MarkdownRenderCacheKey {
    pub width: u16,
    pub syntax_theme_revision: u64,
    pub terminal_fg: Option<Rgb>,
    pub terminal_bg: Option<Rgb>,
    pub color_level: StdoutColorLevel,
}

fn same_color(a: Option<Rgb>, b: Option<Rgb>) -> (r: bool)
    ensures
        r == (a == b),
{
    match (a, b) {
        (Some(x), Some(y)) => x == y,
        (None, None) => true,
        _ => false,
    }
}

fn same_key(a: MarkdownRenderCacheKey, b: MarkdownRenderCacheKey) -> (r: bool)
    ensures
        r == (a == b),
{
    a.width == b.width && a.syntax_theme_revision == b.syntax_theme_revision && same_color(
        a.terminal_fg,
        b.terminal_fg,
    ) && same_color(a.terminal_bg, b.terminal_bg) && a.color_level == b.color_level
}

/// The renderings of the two most recent keys, the most recent last.
pub struct MarkdownRenderCache {
    pub cached: Vec<(MarkdownRenderCacheKey, Arc<Vec<String>>)>,
}

/// The first entry of a key, or the number of entries.
pub open spec fn entry_of(
    cached: Seq<(MarkdownRenderCacheKey, Arc<Vec<String>>)>,
    key: MarkdownRenderCacheKey,
) -> int
    decreases cached.len(),
{
    if cached.len() == 0 || cached[0].0 == key {
        0
    } else {
        1 + entry_of(cached.skip(1), key)
    }
}

/// The last two entries.
pub open spec fn last_two(cached: Seq<(MarkdownRenderCacheKey, Arc<Vec<String>>)>) -> Seq<
    (MarkdownRenderCacheKey, Arc<Vec<String>>),
> {
    if cached.len() > 2 {
        cached.skip(cached.len() - 2)
    } else {
        cached
    }
}

/// The entries after the lines of a key were asked for: a key that is known becomes the most recent
/// one, another one is kept with its lines.
pub open spec fn after_render(
    cached: Seq<(MarkdownRenderCacheKey, Arc<Vec<String>>)>,
    key: MarkdownRenderCacheKey,
    lines: Arc<Vec<String>>,
) -> Seq<(MarkdownRenderCacheKey, Arc<Vec<String>>)> {
    let i = entry_of(cached, key);
    if i < cached.len() {
        cached.remove(i).push(cached[i])
    } else {
        last_two(cached.push((key, lines)))
    }
}

impl MarkdownRenderCache {
    pub open spec fn known(&self, key: MarkdownRenderCacheKey) -> bool {
        entry_of(self.cached@, key) < self.cached@.len()
    }

    /// The lines that are cached for a key.
    pub open spec fn lines_for(&self, key: MarkdownRenderCacheKey) -> Option<Arc<Vec<String>>> {
        let i = entry_of(self.cached@, key);
        if 0 <= i < self.cached@.len() {
            Some(self.cached@[i].1)
        } else {
            None
        }
    }

    fn position(&self, key: MarkdownRenderCacheKey) -> (r: usize)
        ensures
            r == entry_of(self.cached@, key),
            r <= self.cached@.len(),
    {
        let mut i: usize = 0;
        proof {
            assert(self.cached@.skip(0) =~= self.cached@);
        }
        while i < self.cached.len() && !same_key(self.cached[i].0, key)
            invariant
                i <= self.cached@.len(),
                i + entry_of(self.cached@.skip(i as int), key) == entry_of(self.cached@, key),
            decreases self.cached@.len() - i,
        {
            proof {
                assert(self.cached@.skip(i as int)[0] == self.cached@[i as int]);
                assert(self.cached@.skip(i as int).skip(1) =~= self.cached@.skip(i + 1));
            }
            i += 1;
        }
        proof {
            if i < self.cached@.len() {
                assert(self.cached@.skip(i as int)[0] == self.cached@[i as int]);
            }
        }
        i
    }

    /// Hands back the lines that are cached for a key, which becomes the most recent one, or
    /// renders and keeps them.
    pub fn render<F: FnOnce() -> Vec<String>>(
        &mut self,
        key: MarkdownRenderCacheKey,
        render: F,
    ) -> (r: Arc<Vec<String>>)
        requires
            render.requires(()),
        ensures
            old(self).known(key) ==> old(self).lines_for(key) == Some(r),
            !old(self).known(key) ==> render.ensures((), *r),
            final(self).cached@ == after_render(old(self).cached@, key, r),
    {
        let i = self.position(key);
        if i < self.cached.len() {
            let entry = self.cached.remove(i);
            let lines = history_cell::share(&entry.1);
            self.cached.push(entry);
            return lines;
        }
        let lines = Arc::new(render());
        self.cached.push((key, history_cell::share(&lines)));
        let ghost all = self.cached@;
        while self.cached.len() > 2
            invariant
                self.cached@.len() <= all.len(),
                self.cached@ == all.skip(all.len() - self.cached@.len()),
                all.len() >= 2 ==> self.cached@.len() >= 2,
                all.len() < 2 ==> self.cached@ == all,
            decreases self.cached@.len(),
        {
            let _ = self.cached.remove(0);
            proof {
                assert(self.cached@ =~= all.skip(all.len() - self.cached@.len()));
            }
        }
        proof {
            assert(self.cached@ =~= last_two(all));
        }
        lines
    }
}

impl Default for MarkdownRenderCache {
    fn default() -> (r: Self)
        ensures
            r.cached@.len() == 0,
    {
        MarkdownRenderCache { cached: Vec::new() }
    }
}

proof fn lemma_entry_of(
    cached: Seq<(MarkdownRenderCacheKey, Arc<Vec<String>>)>,
    key: MarkdownRenderCacheKey,
)
    ensures
        0 <= entry_of(cached, key) <= cached.len(),
        entry_of(cached, key) < cached.len() ==> cached[entry_of(cached, key)].0 == key,
        forall|k: int| 0 <= k < entry_of(cached, key) ==> (#[trigger] cached[k]).0 != key,
    decreases cached.len(),
{
    if cached.len() > 0 && cached[0].0 != key {
        let rest = cached.skip(1);
        lemma_entry_of(rest, key);
        assert forall|k: int| 0 <= k < entry_of(cached, key) implies (#[trigger] cached[k]).0
            != key by {
            if k > 0 {
                assert(rest[k - 1] == cached[k]);
            }
        }
    }
}

/// After a rendering was kept for a new key, both it and the most recent one before it are still
/// cached: switching between two widths renders each once.
pub proof fn law_two_keys_are_retained(
    before: MarkdownRenderCache,
    after: MarkdownRenderCache,
    key: MarkdownRenderCacheKey,
    lines: Arc<Vec<String>>,
)
    requires
        before.cached@.len() > 0,
        !before.known(key),
        after.cached@ == after_render(before.cached@, key, lines),
    ensures
        after.cached@.len() == 2,
        after.lines_for(key) == Some(lines),
        after.lines_for(before.cached@.last().0) == Some(before.cached@.last().1),
{
    let recent = before.cached@.last();
    lemma_entry_of(before.cached@, key);
    assert(before.cached@[before.cached@.len() - 1].0 != key);
    assert(after.cached@[0] == recent);
    assert(after.cached@[1] == (key, lines));
    lemma_entry_of(after.cached@, key);
    lemma_entry_of(after.cached@, recent.0);
}

/// The entries after lines were asked for, key by key. The lines of a call are those that it
/// handed back.
pub open spec fn after_renders(calls: Seq<(MarkdownRenderCacheKey, Arc<Vec<String>>)>) -> Seq<
    (MarkdownRenderCacheKey, Arc<Vec<String>>),
>
    decreases calls.len(),
{
    if calls.len() == 0 {
        Seq::empty()
    } else {
        after_render(after_renders(calls.drop_last()), calls.last().0, calls.last().1)
    }
}

/// The key that was used last among those that differ from a given one.
pub open spec fn last_other(
    calls: Seq<(MarkdownRenderCacheKey, Arc<Vec<String>>)>,
    key: MarkdownRenderCacheKey,
) -> Option<MarkdownRenderCacheKey>
    decreases calls.len(),
{
    if calls.len() == 0 {
        None
    } else if calls.last().0 != key {
        Some(calls.last().0)
    } else {
        last_other(calls.drop_last(), key)
    }
}

/// Whether a key is one of the two that were used last.
pub open spec fn used_lately(
    calls: Seq<(MarkdownRenderCacheKey, Arc<Vec<String>>)>,
    key: MarkdownRenderCacheKey,
) -> bool {
    calls.len() > 0 && (calls.last().0 == key || last_other(calls, calls.last().0) == Some(key))
}

/// Whatever was asked for before: there are at most two entries, for different keys, and they are
/// those of the two keys that were used last, the most recent one behind the other. So the lines
/// of a key are rendered exactly where it is not one of these two.
pub proof fn law_the_two_keys_used_last_are_cached(
    calls: Seq<(MarkdownRenderCacheKey, Arc<Vec<String>>)>,
    key: MarkdownRenderCacheKey,
)
    ensures
        ({
            let cached = after_renders(calls);
            &&& cached.len() <= 2
            &&& cached.len() == 2 ==> cached[0].0 != cached[1].0
            &&& calls.len() > 0 ==> cached.len() > 0 && cached.last().0 == calls.last().0
            &&& calls.len() > 0 ==> match last_other(calls, calls.last().0) {
                Some(other) => cached.len() == 2 && cached[0].0 == other,
                None => cached.len() == 1,
            }
            &&& (entry_of(cached, key) < cached.len()) == used_lately(calls, key)
        }),
    decreases calls.len(),
{
    let cached = after_renders(calls);
    if calls.len() > 0 {
        let earlier = calls.drop_last();
        let before = after_renders(earlier);
        let last = calls.last().0;
        law_the_two_keys_used_last_are_cached(earlier, last);
        lemma_entry_of(before, last);
        lemma_last_other(earlier, last);
        if earlier.len() > 0 {
            let prior = before.last();
            assert(prior.0 == earlier.last().0);
            if prior.0 == last {
                if before.len() == 2 {
                    assert(entry_of(before, last) == 1);
                    assert(cached =~= before);
                } else {
                    assert(entry_of(before, last) == 0);
                    assert(cached =~= before);
                }
            } else if before.len() == 2 && before[0].0 == last {
                assert(entry_of(before, last) == 0);
                assert(cached =~= seq![before[1], before[0]]);
            } else {
                assert(cached =~= seq![prior, calls.last()]);
            }
        } else {
            assert(cached =~= seq![calls.last()]);
        }
    }
    lemma_entry_of(cached, key);
}

/// What was used last among the keys that differ from a given one differs from it.
proof fn lemma_last_other(
    calls: Seq<(MarkdownRenderCacheKey, Arc<Vec<String>>)>,
    key: MarkdownRenderCacheKey,
)
    ensures
        last_other(calls, key) matches Some(other) ==> other != key,
    decreases calls.len(),
{
    if calls.len() > 0 {
        lemma_last_other(calls.drop_last(), key);
    }
}

} // verus!
