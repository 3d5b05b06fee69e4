use crate::geometry::{
    cells_of, led_count_of, ledmap, ledmap_of, lemma_ledmap_injective, width_of, FULL_LED_COUNT, GRID_HEIGHT,
    MINI_LED_COUNT, NO_LED,
};
use vstd::prelude::*;

verus! {

/// LED `k` is on the grid, at cell `cells_of(mini)[k]`, and its three bytes
/// in `keys` take the pixel there from `screen`, which holds four bytes per
/// cell in blue, green, red order; the other bytes of `keys` stay.
pub open spec fn frame_mapped(mini: bool, screen: Seq<u8>, before: Seq<u8>, after: Seq<u8>) -> bool {
    &&& after.len() == before.len()
    &&& forall|k: int, c: int|
        0 <= k < led_count_of(mini) && 0 <= c < 3 ==> #[trigger] after[3 * k + c] == if cells_of(mini)[k]
            != NO_LED {
            screen[4 * cells_of(mini)[k] + 2 - c]
        } else {
            before[3 * k + c]
        }
}

/// Copies a captured frame, one pixel per grid cell, onto the LEDs.
pub fn map_screen_frame(mini: bool, screen: &[u8], keys: &mut Vec<u8>)
    requires
        screen@.len() == 4 * width_of(mini) * GRID_HEIGHT,
        old(keys)@.len() == 3 * led_count_of(mini),
    ensures
        frame_mapped(mini, screen@, old(keys)@, final(keys)@),
{
    proof {
        lemma_cells_inverse(mini);
    }
    let table = ledmap(mini);
    let count: usize = if mini {
        MINI_LED_COUNT
    } else {
        FULL_LED_COUNT
    };
    copy_pixels(table.as_slice(), Ghost(cells_of(mini)), count, screen, keys);
}

proof fn lemma_cells_inverse(mini: bool)
    ensures
        led_count_of(mini) < NO_LED,
        cells_of(mini).len() == led_count_of(mini),
        ledmap_of(mini).len() == width_of(mini) * GRID_HEIGHT,
        forall|i: int|
            0 <= i < ledmap_of(mini).len() && #[trigger] ledmap_of(mini)[i] != NO_LED ==> ledmap_of(mini)[i]
                < led_count_of(mini) && cells_of(mini)[ledmap_of(mini)[i] as int] == i,
        forall|k: int|
            0 <= k < led_count_of(mini) && #[trigger] cells_of(mini)[k] != NO_LED ==> cells_of(mini)[k]
                < ledmap_of(mini).len() && ledmap_of(mini)[cells_of(mini)[k] as int] == k,
{
    lemma_ledmap_injective(mini);
}

/// Copies the pixel of each cell of `table` that has an LED to that LED;
/// `cells` is the inverse of `table`.
fn copy_pixels(table: &[u8], cells: Ghost<Seq<u8>>, count: usize, screen: &[u8], keys: &mut Vec<u8>)
    requires
        screen@.len() == 4 * table@.len(),
        old(keys)@.len() == 3 * count,
        count < NO_LED,
        table@.len() < NO_LED,
        cells@.len() == count,
        forall|i: int| 0 <= i < table@.len() && #[trigger] table@[i] != NO_LED ==> table@[i] < count && cells@[table@[i] as int] == i,
        forall|k: int| 0 <= k < count && #[trigger] cells@[k] != NO_LED ==> cells@[k] < table@.len() && table@[cells@[k] as int] == k,
    ensures
        final(keys)@.len() == old(keys)@.len(),
        forall|k: int, c: int|
            0 <= k < count && 0 <= c < 3 ==> #[trigger] final(keys)@[3 * k + c] == if cells@[k] != NO_LED {
                screen@[4 * cells@[k] + 2 - c]
            } else {
                old(keys)@[3 * k + c]
            },
{
    let n = table.len();
    let mut i: usize = 0;
    while i < n
        invariant
            n == table@.len(),
            screen@.len() == 4 * n,
            keys@.len() == 3 * count,
            count < NO_LED,
            table@.len() < NO_LED,
            cells@.len() == count,
            forall|i: int| 0 <= i < table@.len() && #[trigger] table@[i] != NO_LED ==> table@[i] < count && cells@[table@[i] as int] == i,
            forall|k: int| 0 <= k < count && #[trigger] cells@[k] != NO_LED ==> cells@[k] < table@.len() && table@[cells@[k] as int] == k,
            i <= n,
            forall|k: int, c: int|
                0 <= k < count && 0 <= c < 3 ==> #[trigger] keys@[3 * k + c] == if cells@[k] != NO_LED
                    && cells@[k] < i {
                    screen@[4 * cells@[k] + 2 - c]
                } else {
                    old(keys)@[3 * k + c]
                },
        decreases n - i,
    {
        let m = table[i];
        let ghost prev = keys@;
        if m != NO_LED {
            let base = m as usize * 3;
            keys.set(base, screen[i * 4 + 2]);
            keys.set(base + 1, screen[i * 4 + 1]);
            keys.set(base + 2, screen[i * 4]);
            assert(keys@ == prev.update(base as int, screen@[i * 4 + 2]).update(base + 1, screen@[i * 4 + 1]).update(
                base + 2,
                screen@[i * 4 + 0],
            ));
            assert forall|k: int, c: int|
                0 <= k < count && 0 <= c < 3 implies #[trigger] keys@[3 * k + c] == if cells@[k] != NO_LED
                    && cells@[k] < i + 1 {
                    screen@[4 * cells@[k] + 2 - c]
                } else {
                    old(keys)@[3 * k + c]
                } by {
                if k == m as int {
                    assert(cells@[k] == i);
                    if c == 0 {
                        assert(keys@[3 * k + c] == screen@[4 * i + 2]);
                    } else if c == 1 {
                        assert(keys@[3 * k + c] == screen@[4 * i + 1]);
                    } else {
                        assert(keys@[3 * k + c] == screen@[4 * i + 0]);
                    }
                } else {
                    assert(keys@[3 * k + c] == prev[3 * k + c]);
                    if cells@[k] != NO_LED && cells@[k] == i {
                        assert(table@[cells@[k] as int] == k);
                    }
                }
            }
        } else {
            assert forall|k: int, c: int|
                0 <= k < count && 0 <= c < 3 implies #[trigger] keys@[3 * k + c] == if cells@[k] != NO_LED
                    && cells@[k] < i + 1 {
                    screen@[4 * cells@[k] + 2 - c]
                } else {
                    old(keys)@[3 * k + c]
                } by {
                assert(keys@[3 * k + c] == prev[3 * k + c]);
                if cells@[k] != NO_LED && cells@[k] == i {
                    assert(table@[cells@[k] as int] == k);
                }
            }
        }
        i = i + 1;
    }
}

/// Frames for finding LED indices by eye: with `grouped`, runs of six LEDs
/// share one of six colors; otherwise the six colors repeat LED by LED.
pub fn key_id_frame(grouped: bool) -> (r: Vec<u8>)
    ensures
        r@.len() == 576,
        forall|i: int|
            0 <= i < 576 ==> #[trigger] r@[i] == ID_COLORS@[if grouped {
                ((i / 18) * 3) % 18 + i % 3
            } else {
                i % 18
            }],
{
    let mut r: Vec<u8> = Vec::new();
    let mut i: usize = 0;
    while i < 576
        invariant
            i <= 576,
            r@.len() == i,
            forall|j: int|
                0 <= j < i ==> #[trigger] r@[j] == ID_COLORS@[if grouped {
                    ((j / 18) * 3) % 18 + j % 3
                } else {
                    j % 18
                }],
        decreases 576 - i,
    {
        let k = if grouped {
            ((i / 18) * 3) % 18 + i % 3
        } else {
            i % 18
        };
        r.push(ID_COLORS[k]);
        i = i + 1;
    }
    r
}

/// Red, green, blue, yellow, cyan and magenta, three bytes each.
pub const ID_COLORS: [u8; 18] = [
    0xff, 0x00, 0x00,
    0x00, 0xff, 0x00,
    0x00, 0x00, 0xff,
    0xff, 0xff, 0x00,
    0x00, 0xff, 0xff,
    0xff, 0x00, 0xff,
];

/// What one block of audio does to the silence counter of the spectrum
/// effect: `(counter, refresh, skip)`. A silent block adds `block_ms`
/// (saturating); once the counter reaches `limit_ms` the block is skipped,
/// and the first such block also asks to show the profile again. A block
/// with sound resets the counter.
pub fn silence_step(counter_ms: usize, silent: bool, block_ms: usize, limit_ms: usize) -> (r: (usize, bool, bool))
    ensures
        silent ==> r.0 == (if counter_ms + block_ms > usize::MAX {
            usize::MAX as int
        } else {
            counter_ms + block_ms
        }),
        silent ==> r.2 == (r.0 >= limit_ms),
        silent ==> r.1 == (r.0 >= limit_ms && counter_ms < limit_ms),
        !silent ==> r == (0usize, false, false),
{
    if silent {
        let was_below = counter_ms < limit_ms;
        let next = counter_ms.saturating_add(block_ms);
        if next >= limit_ms {
            (next, was_below, true)
        } else {
            (next, false, false)
        }
    } else {
        (0, false, false)
    }
}

} // verus!
