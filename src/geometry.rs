use vstd::prelude::*;

verus! {

/// Table entry of a grid cell without a key.
pub const NO_LED: u8 = 0xff;

/// Rows of the key grid.
pub const GRID_HEIGHT: usize = 6;

/// Columns of the compact layout's key grid.
pub const MINI_WIDTH: usize = 18;

/// Columns of the full-size layout's key grid.
pub const FULL_WIDTH: usize = 22;

/// LEDs of the compact layout.
pub const MINI_LED_COUNT: usize = 106;

/// LEDs of the full-size layout.
pub const FULL_LED_COUNT: usize = 124;

/// LED index of each cell of the compact layout's grid, row by row.
pub const MINI_LEDMAP: [u8; 108] = [
    1, 0, 7, 13, 19, 25, 31, 37, 43, 49, 103, 55, 67, 73, 79, 90, 93, 98,
    2, 8, 14, 20, 26, 32, 38, 44, 50, 56, 61, 62, 68, 74, 80, 89, 94, 99,
    3, 9, 15, 21, 27, 33, 39, 45, 51, 57, 63, 69, 75, 0xff, 81, 88, 95, 96,
    4, 0xff, 10, 16, 22, 28, 34, 40, 46, 52, 58, 64, 70, 76, 82, 0xff, 0xff, 0xff,
    5, 11, 17, 23, 29, 35, 41, 47, 53, 59, 65, 66, 71, 77, 0xff, 0xff, 87, 0xff,
    6, 12, 0xff, 18, 24, 30, 36, 42, 48, 54, 60, 72, 0xff, 78, 83, 84, 85, 86,
];

/// LED index of each cell of the full-size layout's grid, row by row.
pub const FULL_LEDMAP: [u8; 132] = [
    1, 0, 7, 13, 19, 25, 31, 37, 43, 49, 120, 55, 67, 73, 79, 90, 93, 98, 91, 97, 92, 118,
    2, 8, 14, 20, 26, 32, 38, 44, 50, 56, 61, 62, 68, 74, 80, 89, 94, 99, 100, 108, 109, 116,
    3, 9, 15, 21, 27, 33, 39, 45, 51, 57, 63, 69, 75, 0xff, 81, 88, 95, 96, 101, 107, 110, 115,
    4, 0xff, 10, 16, 22, 28, 34, 40, 46, 52, 58, 64, 70, 76, 82, 0xff, 0xff, 0xff, 102, 106, 111, 0xff,
    5, 11, 17, 23, 29, 35, 41, 47, 53, 59, 65, 66, 71, 77, 0xff, 0xff, 87, 0xff, 103, 105, 112, 114,
    6, 12, 0xff, 18, 24, 30, 36, 42, 48, 54, 60, 72, 0xff, 78, 83, 84, 85, 86, 104, 0xff, 113, 0xff,
];

/// Grid cell of each LED of the compact layout; `NO_LED` for an LED off the grid.
pub const MINI_CELLS: [u8; 106] = [
    1, 0, 18, 36, 54, 72, 90, 2, 19, 37, 56, 73, 91, 3, 20, 38, 57, 74,
    93, 4, 21, 39, 58, 75, 94, 5, 22, 40, 59, 76, 95, 6, 23, 41, 60, 77,
    96, 7, 24, 42, 61, 78, 97, 8, 25, 43, 62, 79, 98, 9, 26, 44, 63, 80,
    99, 11, 27, 45, 64, 81, 100, 28, 29, 46, 65, 82, 83, 12, 30, 47, 66, 84,
    101, 13, 31, 48, 67, 85, 103, 14, 32, 50, 68, 104, 105, 106, 107, 88, 51, 33,
    15, 0xff, 0xff, 16, 34, 52, 53, 0xff, 17, 35, 0xff, 0xff, 0xff, 10, 0xff, 0xff,
];

/// Grid cell of each LED of the full-size layout; `NO_LED` for an LED off the grid.
pub const FULL_CELLS: [u8; 124] = [
    1, 0, 22, 44, 66, 88, 110, 2, 23, 45, 68, 89, 111, 3, 24, 46, 69, 90, 113, 4, 25, 47,
    70, 91, 114, 5, 26, 48, 71, 92, 115, 6, 27, 49, 72, 93, 116, 7, 28, 50, 73, 94, 117, 8,
    29, 51, 74, 95, 118, 9, 30, 52, 75, 96, 119, 11, 31, 53, 76, 97, 120, 32, 33, 54, 77, 98,
    99, 12, 34, 55, 78, 100, 121, 13, 35, 56, 79, 101, 123, 14, 36, 58, 80, 124, 125, 126, 127, 104,
    59, 37, 15, 18, 20, 16, 38, 60, 61, 19, 17, 39, 40, 62, 84, 106, 128, 107, 85, 63, 41, 42,
    64, 86, 108, 130, 109, 65, 43, 0xff, 21, 0xff, 10, 0xff, 0xff, 0xff,
];

/// The grid-to-LED table of a layout.
pub open spec fn ledmap_of(mini: bool) -> Seq<u8> {
    if mini {
        MINI_LEDMAP@
    } else {
        FULL_LEDMAP@
    }
}

/// The grid cell of each LED of a layout.
pub open spec fn cells_of(mini: bool) -> Seq<u8> {
    if mini {
        MINI_CELLS@
    } else {
        FULL_CELLS@
    }
}

pub open spec fn width_of(mini: bool) -> usize {
    if mini {
        MINI_WIDTH
    } else {
        FULL_WIDTH
    }
}

pub open spec fn led_count_of(mini: bool) -> usize {
    if mini {
        MINI_LED_COUNT
    } else {
        FULL_LED_COUNT
    }
}

/// The grid-to-LED table of a layout, row by row.
pub fn ledmap(mini: bool) -> (r: Vec<u8>)
    ensures
        r@ == ledmap_of(mini),
{
    let mut r: Vec<u8> = Vec::new();
    let mut i: usize = 0;
    let n: usize = if mini {
        MINI_WIDTH * GRID_HEIGHT
    } else {
        FULL_WIDTH * GRID_HEIGHT
    };
    while i < n
        invariant
            n == ledmap_of(mini).len(),
            i <= n,
            r@ == ledmap_of(mini).subrange(0, i as int),
        decreases n - i,
    {
        let v = if mini {
            MINI_LEDMAP[i]
        } else {
            FULL_LEDMAP[i]
        };
        r.push(v);
        i = i + 1;
        assert(r@ =~= ledmap_of(mini).subrange(0, i as int));
    }
    assert(r@ =~= ledmap_of(mini));
    r
}

proof fn lemma_enumerate(k: int)
    requires
        0 <= k < 132,
    ensures
        k == 0 || k == 1 || k == 2 || k == 3 || k == 4 || k == 5 || k == 6 || k == 7 || k == 8 || k == 9 || k == 10 || k == 11 ||
        k == 12 || k == 13 || k == 14 || k == 15 || k == 16 || k == 17 || k == 18 || k == 19 || k == 20 || k == 21 || k == 22 || k == 23 ||
        k == 24 || k == 25 || k == 26 || k == 27 || k == 28 || k == 29 || k == 30 || k == 31 || k == 32 || k == 33 || k == 34 || k == 35 ||
        k == 36 || k == 37 || k == 38 || k == 39 || k == 40 || k == 41 || k == 42 || k == 43 || k == 44 || k == 45 || k == 46 || k == 47 ||
        k == 48 || k == 49 || k == 50 || k == 51 || k == 52 || k == 53 || k == 54 || k == 55 || k == 56 || k == 57 || k == 58 || k == 59 ||
        k == 60 || k == 61 || k == 62 || k == 63 || k == 64 || k == 65 || k == 66 || k == 67 || k == 68 || k == 69 || k == 70 || k == 71 ||
        k == 72 || k == 73 || k == 74 || k == 75 || k == 76 || k == 77 || k == 78 || k == 79 || k == 80 || k == 81 || k == 82 || k == 83 ||
        k == 84 || k == 85 || k == 86 || k == 87 || k == 88 || k == 89 || k == 90 || k == 91 || k == 92 || k == 93 || k == 94 || k == 95 ||
        k == 96 || k == 97 || k == 98 || k == 99 || k == 100 || k == 101 || k == 102 || k == 103 || k == 104 || k == 105 || k == 106 || k == 107 ||
        k == 108 || k == 109 || k == 110 || k == 111 || k == 112 || k == 113 || k == 114 || k == 115 || k == 116 || k == 117 || k == 118 || k == 119 ||
        k == 120 || k == 121 || k == 122 || k == 123 || k == 124 || k == 125 || k == 126 || k == 127 || k == 128 || k == 129 || k == 130 || k == 131,
{
}

/// Some cell of the layout's grid holds LED `k`.
pub open spec fn on_grid(mini: bool, k: int) -> bool {
    exists|i: int| 0 <= i < ledmap_of(mini).len() && #[trigger] ledmap_of(mini)[i] == k
}

/// The LEDs that no cell of the layout's grid holds.
pub open spec fn off_grid(mini: bool, k: int) -> bool {
    if mini {
        k == 91 || k == 92 || k == 97 || k == 100 || k == 101 || k == 102 || k == 104 || k == 105
    } else {
        k == 117 || k == 119 || k == 121 || k == 122 || k == 123
    }
}

/// In either layout the table is as large as the grid, every cell with a
/// key holds an LED index below the LED count, no LED index is held twice,
/// and the indices held are all those below the LED count but the few LEDs
/// off the grid.
#[verifier::rlimit(100)]
pub proof fn lemma_ledmap_injective(mini: bool)
    ensures
        ledmap_of(mini).len() == width_of(mini) * GRID_HEIGHT,
        forall|i: int|
            0 <= i < ledmap_of(mini).len() && #[trigger] ledmap_of(mini)[i] != NO_LED ==> ledmap_of(mini)[i]
                < led_count_of(mini),
        forall|i: int, j: int|
            0 <= i < ledmap_of(mini).len() && 0 <= j < ledmap_of(mini).len() && i != j
                && #[trigger] ledmap_of(mini)[i] != NO_LED ==> ledmap_of(mini)[i] != #[trigger] ledmap_of(mini)[j],
        forall|k: int| 0 <= k < led_count_of(mini) ==> (#[trigger] on_grid(mini, k) <==> !off_grid(mini, k)),
        cells_of(mini).len() == led_count_of(mini),
        forall|i: int|
            0 <= i < ledmap_of(mini).len() && #[trigger] ledmap_of(mini)[i] != NO_LED ==> cells_of(mini)[ledmap_of(
                mini,
            )[i] as int] == i,
        forall|k: int|
            0 <= k < led_count_of(mini) && #[trigger] cells_of(mini)[k] != NO_LED ==> cells_of(mini)[k]
                < ledmap_of(mini).len() && ledmap_of(mini)[cells_of(mini)[k] as int] == k,
        forall|k: int| 0 <= k < led_count_of(mini) ==> (#[trigger] cells_of(mini)[k] != NO_LED <==> !off_grid(mini, k)),
{
    let t = ledmap_of(mini);
    let c = cells_of(mini);
    assert forall|i: int| 0 <= i < t.len() && t[i] != NO_LED implies t[i] < led_count_of(mini) && c[t[i] as int] == i by {
        lemma_enumerate(i);
    }
    assert forall|k: int| 0 <= k < led_count_of(mini) implies (c[k] == NO_LED <==> off_grid(mini, k)) && (c[k] != NO_LED ==> c[k] < t.len() && t[c[k] as int] == k) by {
        lemma_enumerate(k);
    }
    assert forall|i: int, j: int|
        0 <= i < t.len() && 0 <= j < t.len() && i != j && #[trigger] t[i] != NO_LED implies t[i] != #[trigger] t[j] by {
        if t[i] == t[j] {
            assert(c[t[i] as int] == i);
        }
    }
    assert forall|k: int| 0 <= k < led_count_of(mini) implies (#[trigger] on_grid(mini, k) <==> !off_grid(mini, k)) by {
        if c[k] != NO_LED {
            assert(t[c[k] as int] == k);
        } else if on_grid(mini, k) {
            let i = choose|i: int| 0 <= i < t.len() && #[trigger] t[i] == k;
            assert(c[t[i] as int] == i);
        }
    }
}

/// Row of the key grid of each LED of the compact layout.
pub const MINI_ROW_OF_LED: [u8; 106] = [
    0, 0, 1, 2, 3, 4, 5, 0, 1, 2, 3, 4, 5, 0, 1, 2,
    3, 4, 5, 0, 1, 2, 3, 4, 5, 0, 1, 2, 3, 4, 5, 0,
    1, 2, 3, 4, 5, 0, 1, 2, 3, 4, 5, 0, 1, 2, 3, 4,
    5, 0, 1, 2, 3, 4, 5, 0, 1, 2, 3, 4, 5, 1, 1, 2,
    3, 4, 4, 0, 1, 2, 3, 4, 5, 0, 1, 2, 4, 5, 5, 0,
    1, 2, 3, 5, 5, 5, 5, 4, 2, 1, 0, 0, 0, 0, 1, 2,
    2, 0, 0, 1, 0, 1, 2, 3, 4, 5,
];

/// A key map in which each LED of the compact layout takes the color of its row.
pub fn rows_keymap(row_colors: &Vec<(u8, u8, u8)>) -> (r: Vec<(u8, u8, u8)>)
    requires
        row_colors@.len() == GRID_HEIGHT,
    ensures
        r@.len() == MINI_LED_COUNT,
        forall|k: int| 0 <= k < MINI_LED_COUNT ==> #[trigger] r@[k] == row_colors@[MINI_ROW_OF_LED@[k] as int],
{
    let mut r: Vec<(u8, u8, u8)> = Vec::new();
    let mut k: usize = 0;
    while k < MINI_LED_COUNT
        invariant
            row_colors@.len() == GRID_HEIGHT,
            k <= MINI_LED_COUNT,
            r@.len() == k,
            forall|j: int| 0 <= j < k ==> #[trigger] r@[j] == row_colors@[MINI_ROW_OF_LED@[j] as int],
        decreases MINI_LED_COUNT - k,
    {
        assert(MINI_ROW_OF_LED@[k as int] < 6) by {
            lemma_enumerate(k as int);
        }
        r.push(row_colors[MINI_ROW_OF_LED[k] as usize]);
        k = k + 1;
    }
    r
}

} // verus!
