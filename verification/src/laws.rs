//! What holds of every run.

use vstd::prelude::*;
use crate::config::PipelineConfig;
use crate::link::{joined_text, origins_equal};
use crate::order::{ascending, descending, sort_texts};
use crate::order::{lemma_reverse_texts, lemma_sort_texts, lemma_sort_texts_members};
use crate::pipeline::{candidate, collected, processed};

verus! {

/// Some raw link of `raws` contributes the address `key`.
pub open spec fn yields(
    base: Seq<char>,
    raws: Seq<Seq<char>>,
    config: PipelineConfig,
    key: Seq<char>,
) -> bool {
    exists|k: int| 0 <= k < raws.len() && #[trigger] candidate(base, raws[k], config) == Some(key)
}

/// The place of the first raw link of `raws` that contributes `key`; the length
/// of `raws` where none does.
pub open spec fn first_hit(
    base: Seq<char>,
    raws: Seq<Seq<char>>,
    config: PipelineConfig,
    key: Seq<char>,
) -> int
    decreases raws.len(),
{
    if raws.len() == 0 {
        0
    } else {
        let earlier = first_hit(base, raws.drop_last(), config, key);
        if earlier < raws.len() - 1 || candidate(base, raws.last(), config) == Some(key) {
            earlier
        } else {
            raws.len() as int
        }
    }
}

/// `first_hit` names a raw link that contributes `key` and has none before it
/// that does, or the length of `raws` where no raw link contributes `key`.
pub proof fn lemma_first_hit(
    base: Seq<char>,
    raws: Seq<Seq<char>>,
    config: PipelineConfig,
    key: Seq<char>,
)
    ensures
        0 <= first_hit(base, raws, config, key) <= raws.len(),
        first_hit(base, raws, config, key) < raws.len() ==> candidate(
            base,
            raws[first_hit(base, raws, config, key)],
            config,
        ) == Some(key),
        forall|k: int|
            0 <= k < first_hit(base, raws, config, key) ==> #[trigger] candidate(
                base,
                raws[k],
                config,
            ) != Some(key),
    decreases raws.len(),
{
    if raws.len() > 0 {
        let head = raws.drop_last();
        lemma_first_hit(base, head, config, key);
        let earlier = first_hit(base, head, config, key);
        assert forall|k: int| 0 <= k < first_hit(base, raws, config, key) implies #[trigger] candidate(
            base,
            raws[k],
            config,
        ) != Some(key) by {
            if k < head.len() {
                assert(raws[k] == head[k]);
            }
        }
        if earlier < head.len() {
            assert(raws[earlier] == head[earlier]);
        }
    }
}

/// An address is collected exactly when some raw link contributes it.
pub proof fn lemma_collected_members(base: Seq<char>, raws: Seq<Seq<char>>, config: PipelineConfig)
    ensures
        forall|key: Seq<char>|
            #![trigger collected(base, raws, config).contains(key)]
            #![trigger yields(base, raws, config, key)]
            collected(base, raws, config).contains(key) <==> yields(base, raws, config, key),
    decreases raws.len(),
{
    let all = collected(base, raws, config);
    if raws.len() == 0 {
        assert forall|key: Seq<char>| all.contains(key) <==> yields(base, raws, config, key) by {}
    } else {
        let head = raws.drop_last();
        let before = collected(base, head, config);
        lemma_collected_members(base, head, config);
        assert forall|key: Seq<char>| all.contains(key) <==> yields(base, raws, config, key) by {
            let last = candidate(base, raws.last(), config);
            if all.contains(key) {
                let i = choose|i: int| 0 <= i < all.len() && all[i] == key;
                if i < before.len() {
                    assert(before[i] == key);
                    assert(before.contains(key));
                    let k = choose|k: int|
                        0 <= k < head.len() && #[trigger] candidate(base, head[k], config) == Some(
                            key,
                        );
                    assert(raws[k] == head[k]);
                } else {
                    assert(last == Some(key));
                    assert(raws[raws.len() - 1] == raws.last());
                }
            }
            if yields(base, raws, config, key) {
                let k = choose|k: int|
                    0 <= k < raws.len() && #[trigger] candidate(base, raws[k], config) == Some(key);
                if k < head.len() {
                    assert(raws[k] == head[k]);
                    assert(yields(base, head, config, key));
                    let i = choose|i: int| 0 <= i < before.len() && before[i] == key;
                    assert(all[i] == key);
                } else {
                    if before.contains(key) {
                    } else {
                        assert(all[all.len() - 1] == key);
                    }
                }
            }
        }
    }
}

/// No address is collected twice.
pub proof fn lemma_collected_distinct(base: Seq<char>, raws: Seq<Seq<char>>, config: PipelineConfig)
    ensures
        collected(base, raws, config).no_duplicates(),
    decreases raws.len(),
{
    if raws.len() > 0 {
        lemma_collected_distinct(base, raws.drop_last(), config);
    }
}

/// Two runs that differ only in sorting and reversing collect the same
/// addresses in the same order.
pub proof fn lemma_collected_ignores_order(
    base: Seq<char>,
    raws: Seq<Seq<char>>,
    a: PipelineConfig,
    b: PipelineConfig,
)
    requires
        a.internal == b.internal,
        a.external == b.external,
    ensures
        collected(base, raws, a) == collected(base, raws, b),
    decreases raws.len(),
{
    if raws.len() > 0 {
        lemma_collected_ignores_order(base, raws.drop_last(), a, b);
    }
}

/// An address is in the result exactly when some raw link contributes it.
pub proof fn lemma_processed_members(base: Seq<char>, raws: Seq<Seq<char>>, config: PipelineConfig)
    ensures
        forall|key: Seq<char>|
            #![trigger processed(base, raws, config).contains(key)]
            #![trigger yields(base, raws, config, key)]
            processed(base, raws, config).contains(key) <==> yields(base, raws, config, key),
{
    let found = collected(base, raws, config);
    lemma_collected_members(base, raws, config);
    lemma_sort_texts_members(found);
    let sorted = if config.sort {
        sort_texts(found)
    } else {
        found
    };
    lemma_reverse_texts(sorted);
}

/// The result holds no address twice, is ascending when sorted, and descending
/// when sorted and reversed.
pub proof fn lemma_processed_shape(base: Seq<char>, raws: Seq<Seq<char>>, config: PipelineConfig)
    ensures
        processed(base, raws, config).no_duplicates(),
        config.sort && !config.reverse ==> ascending(processed(base, raws, config)),
        config.sort && config.reverse ==> descending(processed(base, raws, config)),
{
    let found = collected(base, raws, config);
    lemma_collected_distinct(base, raws, config);
    lemma_sort_texts_members(found);
    lemma_sort_texts(found);
    let sorted = if config.sort {
        sort_texts(found)
    } else {
        found
    };
    lemma_reverse_texts(sorted);
}

/// Raw links that contribute the same address, be they the same text twice or
/// texts that part only in what is dropped from them, leave one entry in the
/// result: that address, at one place and no other.
pub proof fn lemma_one_entry_per_address(
    base: Seq<char>,
    raws: Seq<Seq<char>>,
    config: PipelineConfig,
    k: int,
    key: Seq<char>,
)
    requires
        0 <= k < raws.len(),
        candidate(base, raws[k], config) == Some(key),
    ensures
        processed(base, raws, config).contains(key),
        forall|p: int, q: int|
            0 <= p < processed(base, raws, config).len() && 0 <= q < processed(
                base,
                raws,
                config,
            ).len() && processed(base, raws, config)[p] == key && processed(base, raws, config)[q]
                == key ==> p == q,
{
    lemma_processed_members(base, raws, config);
    lemma_processed_shape(base, raws, config);
    assert(yields(base, raws, config, key));
}

/// Without sorting and reversing, the addresses of the result stand in the
/// order in which the raw links first contributed them.
pub proof fn lemma_first_occurrence_order(
    base: Seq<char>,
    raws: Seq<Seq<char>>,
    config: PipelineConfig,
)
    requires
        !config.sort,
        !config.reverse,
    ensures
        forall|i: int|
            0 <= i < processed(base, raws, config).len() ==> 0 <= #[trigger] first_hit(
                base,
                raws,
                config,
                processed(base, raws, config)[i],
            ) < raws.len(),
        forall|i: int, j: int|
            0 <= i < j < processed(base, raws, config).len() ==> #[trigger] first_hit(
                base,
                raws,
                config,
                processed(base, raws, config)[i],
            ) < #[trigger] first_hit(base, raws, config, processed(base, raws, config)[j]),
{
    lemma_collected_order(base, raws, config);
}

/// The collected addresses stand in the order in which the raw links first
/// contributed them.
pub proof fn lemma_collected_order(base: Seq<char>, raws: Seq<Seq<char>>, config: PipelineConfig)
    ensures
        forall|i: int|
            0 <= i < collected(base, raws, config).len() ==> 0 <= #[trigger] first_hit(
                base,
                raws,
                config,
                collected(base, raws, config)[i],
            ) < raws.len(),
        forall|i: int, j: int|
            0 <= i < j < collected(base, raws, config).len() ==> #[trigger] first_hit(
                base,
                raws,
                config,
                collected(base, raws, config)[i],
            ) < #[trigger] first_hit(base, raws, config, collected(base, raws, config)[j]),
    decreases raws.len(),
{
    let all = collected(base, raws, config);
    if raws.len() > 0 {
        let head = raws.drop_last();
        let before = collected(base, head, config);
        lemma_collected_order(base, head, config);
        lemma_collected_members(base, head, config);
        assert forall|i: int| 0 <= i < all.len() implies 0 <= #[trigger] first_hit(
            base,
            raws,
            config,
            all[i],
        ) < raws.len() by {
            lemma_first_hit(base, head, config, all[i]);
            if i < before.len() {
                assert(all[i] == before[i]);
            } else {
                assert(!before.contains(all[i]));
                if first_hit(base, head, config, all[i]) < head.len() {
                    assert(yields(base, head, config, all[i]));
                }
            }
        }
        assert forall|i: int, j: int| 0 <= i < j < all.len() implies #[trigger] first_hit(
            base,
            raws,
            config,
            all[i],
        ) < #[trigger] first_hit(base, raws, config, all[j]) by {
            lemma_first_hit(base, head, config, all[i]);
            lemma_first_hit(base, head, config, all[j]);
            assert(all[i] == before[i]);
            if j < before.len() {
                assert(all[j] == before[j]);
            } else {
                assert(!before.contains(all[j]));
                if first_hit(base, head, config, all[j]) < head.len() {
                    assert(yields(base, head, config, all[j]));
                }
            }
        }
    }
}

/// Reversing is the last step: a run that reverses gives the result of the same
/// run without reversing, last first, sorted or not.
pub proof fn lemma_reverse_composition(
    base: Seq<char>,
    raws: Seq<Seq<char>>,
    config: PipelineConfig,
)
    ensures
        processed(base, raws, PipelineConfig { reverse: true, ..config }) == processed(
            base,
            raws,
            PipelineConfig { reverse: false, ..config },
        ).reverse(),
{
    lemma_collected_ignores_order(
        base,
        raws,
        PipelineConfig { reverse: true, ..config },
        PipelineConfig { reverse: false, ..config },
    );
}

/// With the other options equal, the internal links and the external links of
/// a page share no address, and together they are the links of the page.
pub proof fn lemma_filter_partition(base: Seq<char>, raws: Seq<Seq<char>>, config: PipelineConfig)
    ensures
        processed(base, raws, PipelineConfig { internal: true, external: false, ..config }).to_set().disjoint(
            processed(
                base,
                raws,
                PipelineConfig { internal: false, external: true, ..config },
            ).to_set(),
        ),
        processed(base, raws, PipelineConfig { internal: true, external: false, ..config }).to_set().union(
            processed(
                base,
                raws,
                PipelineConfig { internal: false, external: true, ..config },
            ).to_set(),
        ) == processed(
            base,
            raws,
            PipelineConfig { internal: false, external: false, ..config },
        ).to_set(),
{
    let inner = PipelineConfig { internal: true, external: false, ..config };
    let outer = PipelineConfig { internal: false, external: true, ..config };
    let every = PipelineConfig { internal: false, external: false, ..config };
    let a = processed(base, raws, inner);
    let b = processed(base, raws, outer);
    let c = processed(base, raws, every);
    lemma_processed_members(base, raws, inner);
    lemma_processed_members(base, raws, outer);
    lemma_processed_members(base, raws, every);
    assert forall|key: Seq<char>| !(a.contains(key) && b.contains(key)) by {
        if a.contains(key) && b.contains(key) {
            let i = choose|k: int|
                0 <= k < raws.len() && #[trigger] candidate(base, raws[k], inner) == Some(key);
            let j = choose|k: int|
                0 <= k < raws.len() && #[trigger] candidate(base, raws[k], outer) == Some(key);
            assert(origins_equal(key, base));
            assert(!origins_equal(key, base));
        }
    }
    assert forall|key: Seq<char>| (a.contains(key) || b.contains(key)) <==> c.contains(key) by {
        if a.contains(key) {
            let i = choose|k: int|
                0 <= k < raws.len() && #[trigger] candidate(base, raws[k], inner) == Some(key);
            assert(candidate(base, raws[i], every) == Some(key));
        }
        if b.contains(key) {
            let i = choose|k: int|
                0 <= k < raws.len() && #[trigger] candidate(base, raws[k], outer) == Some(key);
            assert(candidate(base, raws[i], every) == Some(key));
        }
        if c.contains(key) {
            let i = choose|k: int|
                0 <= k < raws.len() && #[trigger] candidate(base, raws[k], every) == Some(key);
            if origins_equal(key, base) {
                assert(candidate(base, raws[i], inner) == Some(key));
            } else {
                assert(candidate(base, raws[i], outer) == Some(key));
            }
        }
    }
    assert(a.to_set().disjoint(b.to_set()));
    assert(a.to_set().union(b.to_set()) =~= c.to_set());
}

/// A raw link that does not resolve changes nothing, wherever it stands among
/// the others.
pub proof fn lemma_unresolvable_ignored(
    base: Seq<char>,
    raws: Seq<Seq<char>>,
    config: PipelineConfig,
    at: int,
    bad: Seq<char>,
)
    requires
        0 <= at <= raws.len(),
        joined_text(base, bad) is None,
    ensures
        collected(base, raws.insert(at, bad), config) == collected(base, raws, config),
        processed(base, raws.insert(at, bad), config) == processed(base, raws, config),
    decreases raws.len(),
{
    let with = raws.insert(at, bad);
    if at == raws.len() {
        assert(with.drop_last() =~= raws);
        assert(with.last() == bad);
    } else {
        lemma_unresolvable_ignored(base, raws.drop_last(), config, at, bad);
        assert(with.drop_last() =~= raws.drop_last().insert(at, bad));
        assert(with.last() == raws.last());
    }
}

} // verus!
