//! QR codes: encoding text into a module matrix with qrcodegen, classifying
//! the dark modules for rendering, and the component's colors and classes.
use vstd::prelude::*;

use crate::select::push_suffix_if;
use crate::text::{chars_of, string_from, trim, trim_range};

verus! {

/// The module matrix (rows of dark/light flags) that qrcodegen's
/// `QrCode::encode_text` produces for a text at `QrCodeEcc::High`, or `None`
/// when the text does not fit any QR Code version.
pub uninterp spec fn qr_high_matrix(text: Seq<char>) -> Option<Seq<Seq<bool>>>;

/// Encodes text with `qrcodegen::QrCode::encode_text(text, QrCodeEcc::High)` and
/// reads every module with `get_module(x, y)`, row by row. Besides naming the
/// result, the contract states what qrcodegen documents: a symbol is square and
/// its size lies in 21..=177.
#[verifier::external_body]
fn encode_text_high(text: &str) -> (r: Option<Vec<Vec<bool>>>)
    ensures
        match r {
            Some(m) => qr_high_matrix(text@) == Some(m.deep_view()) && 21 <= m@.len() <= 177
                && forall|y: int| 0 <= y < m@.len() ==> (#[trigger] m@[y])@.len() == m@.len(),
            None => qr_high_matrix(text@) is None,
        },
{
    match qrcodegen::QrCode::encode_text(text, qrcodegen::QrCodeEcc::High) {
        Ok(code) => Some(
            (0..code.size()).map(|y| (0..code.size()).map(|x| code.get_module(x, y)).collect()).collect(),
        ),
        Err(_) => None,
    }
}

/// The rendering role of a dark module.
#[derive(Debug, Clone, Copy, PartialEq, Eq)]
pub enum ModuleKind {
    Dot,
    FinderRing,
    FinderCenter,
}

/// One dark module of the matrix.
#[derive(Debug, Clone, Copy, PartialEq, Eq)]
pub struct QrModule {
    pub x: i32,
    pub y: i32,
    pub kind: ModuleKind,
}

/// Whether `(x, y)` lies in the 7x7 finder pattern whose corner is `(ox, oy)`.
pub open spec fn in_finder(x: int, y: int, ox: int, oy: int) -> bool {
    ox <= x < ox + 7 && oy <= y < oy + 7
}

/// The role of the module at `(x, y)` of a `size`-wide symbol: the 3x3 center
/// or the ring of one of the three finder patterns, or a plain dot.
pub open spec fn kind_of(x: int, y: int, size: int) -> ModuleKind {
    if in_finder(x, y, 0, 0) {
        if 2 <= x < 5 && 2 <= y < 5 {
            ModuleKind::FinderCenter
        } else {
            ModuleKind::FinderRing
        }
    } else if in_finder(x, y, size - 7, 0) {
        if 2 <= x - (size - 7) < 5 && 2 <= y < 5 {
            ModuleKind::FinderCenter
        } else {
            ModuleKind::FinderRing
        }
    } else if in_finder(x, y, 0, size - 7) {
        if 2 <= x < 5 && 2 <= y - (size - 7) < 5 {
            ModuleKind::FinderCenter
        } else {
            ModuleKind::FinderRing
        }
    } else {
        ModuleKind::Dot
    }
}

/// The three finder patterns of a symbol at least 14 modules wide: in each of
/// the 7x7 squares at the top-left, top-right and bottom-left corners, a
/// module whose offsets from the square's corner both lie in `2..5` is the
/// center and every other module the ring; a module outside the three squares
/// is a plain dot.
pub proof fn lemma_finder_patterns(size: int, dx: int, dy: int, x: int, y: int)
    requires
        size >= 14,
        0 <= dx < 7,
        0 <= dy < 7,
    ensures
        kind_of(dx, dy, size) == (if 2 <= dx < 5 && 2 <= dy < 5 {
            ModuleKind::FinderCenter
        } else {
            ModuleKind::FinderRing
        }),
        kind_of(size - 7 + dx, dy, size) == (if 2 <= dx < 5 && 2 <= dy < 5 {
            ModuleKind::FinderCenter
        } else {
            ModuleKind::FinderRing
        }),
        kind_of(dx, size - 7 + dy, size) == (if 2 <= dx < 5 && 2 <= dy < 5 {
            ModuleKind::FinderCenter
        } else {
            ModuleKind::FinderRing
        }),
        !(0 <= x < 7 && 0 <= y < 7) && !(size - 7 <= x < size && 0 <= y < 7) && !(0 <= x < 7 && size - 7 <= y
            < size) ==> kind_of(x, y, size) == ModuleKind::Dot,
{
}

/// Classifies a module for rendering.
pub fn module_kind(x: i32, y: i32, size: i32) -> (r: ModuleKind)
    requires
        size >= i32::MIN + 7,
    ensures
        r == kind_of(x as int, y as int, size as int),
{
    let origins: [(i32, i32); 3] = [(0, 0), (size - 7, 0), (0, size - 7)];
    let mut k: usize = 0;
    while k < 3
        invariant
            0 <= k <= 3,
            origins@ == seq![(0i32, 0i32), ((size - 7) as i32, 0i32), (0i32, (size - 7) as i32)],
            size >= i32::MIN + 7,
            forall|j: int|
                0 <= j < k ==> !in_finder(x as int, y as int, origins@[j].0 as int, origins@[j].1 as int),
        decreases 3 - k,
    {
        let (ox, oy) = origins[k];
        if ox <= x && x < ox + 7 && oy <= y && y < oy + 7 {
            let local_x = x - ox;
            let local_y = y - oy;
            if 2 <= local_x && local_x < 5 && 2 <= local_y && local_y < 5 {
                return ModuleKind::FinderCenter;
            } else {
                return ModuleKind::FinderRing;
            }
        }
        k = k + 1;
    }
    ModuleKind::Dot
}

/// The dark modules of cells `0..count` of row `y`, left to right.
pub open spec fn row_modules(m: Seq<Seq<bool>>, y: int, count: nat) -> Seq<QrModule>
    decreases count,
{
    if count == 0 {
        Seq::empty()
    } else {
        let x = count - 1;
        let pre = row_modules(m, y, (count - 1) as nat);
        if m[y][x] {
            pre.push(QrModule { x: x as i32, y: y as i32, kind: kind_of(x, y, m.len() as int) })
        } else {
            pre
        }
    }
}

/// The dark modules of rows `0..count`, row by row.
pub open spec fn matrix_modules(m: Seq<Seq<bool>>, count: nat) -> Seq<QrModule>
    decreases count,
{
    if count == 0 {
        Seq::empty()
    } else {
        matrix_modules(m, (count - 1) as nat) + row_modules(m, count - 1, m.len())
    }
}

/// Whether module `a` comes before module `b` in row-major order.
pub open spec fn before_in_rows(a: QrModule, b: QrModule) -> bool {
    a.y < b.y || (a.y == b.y && a.x < b.x)
}

proof fn lemma_row_modules(m: Seq<Seq<bool>>, y: int, count: nat)
    requires
        0 <= y < m.len() <= 177,
        count <= m[y].len(),
        m[y].len() <= 177,
    ensures
        ({
            let r = row_modules(m, y, count);
            &&& forall|k: int|
                0 <= k < r.len() ==> (#[trigger] r[k]).y == y && 0 <= r[k].x < count && m[y][r[k].x as int]
                    && r[k].kind == kind_of(r[k].x as int, y, m.len() as int)
            &&& forall|x: int| 0 <= x < count && #[trigger] m[y][x] ==> exists|k: int| 0 <= k < r.len() && r[k].x == x
            &&& forall|i: int, j: int| 0 <= i < j < r.len() ==> r[i].x < r[j].x
        }),
    decreases count,
{
    if count > 0 {
        lemma_row_modules(m, y, (count - 1) as nat);
        let pre = row_modules(m, y, (count - 1) as nat);
        let r = row_modules(m, y, count);
        let x = count - 1;
        if m[y][x] {
            assert(r[r.len() - 1].x == x);
            assert forall|xx: int| 0 <= xx < count && #[trigger] m[y][xx] implies exists|k: int|
                0 <= k < r.len() && r[k].x == xx by {
                if xx < x {
                    let k = choose|k: int| 0 <= k < pre.len() && pre[k].x == xx;
                    assert(r[k] == pre[k]);
                } else {
                    assert(r[r.len() - 1].x == xx);
                }
            }
            assert forall|k: int| 0 <= k < r.len() implies (#[trigger] r[k]).y == y && 0 <= r[k].x < count
                && m[y][r[k].x as int] && r[k].kind == kind_of(r[k].x as int, y, m.len() as int) by {
                if k < pre.len() {
                    assert(r[k] == pre[k]);
                }
            }
            assert forall|i: int, j: int| 0 <= i < j < r.len() implies r[i].x < r[j].x by {
                assert(r[i] == pre[i]);
                if j < pre.len() {
                    assert(r[j] == pre[j]);
                }
            }
        }
    }
}

/// The modules of a square matrix are exactly its dark cells, listed once
/// each in row-major order, each with the role its position gives it.
pub proof fn lemma_modules_are_dark_cells(m: Seq<Seq<bool>>, count: nat)
    requires
        square_matrix(m),
        count <= m.len(),
    ensures
        ({
            let r = matrix_modules(m, count);
            &&& forall|k: int|
                0 <= k < r.len() ==> 0 <= (#[trigger] r[k]).y < count && 0 <= r[k].x < m.len() && m[r[k].y as int][r[k].x as int]
                    && r[k].kind == kind_of(r[k].x as int, r[k].y as int, m.len() as int)
            &&& forall|x: int, y: int|
                0 <= y < count && 0 <= x < m.len() && #[trigger] m[y][x] ==> exists|k: int|
                    0 <= k < r.len() && r[k].x == x && r[k].y == y
            &&& forall|i: int, j: int| 0 <= i < j < r.len() ==> before_in_rows(r[i], r[j])
        }),
    decreases count,
{
    if count > 0 {
        let y = count - 1;
        lemma_modules_are_dark_cells(m, (count - 1) as nat);
        lemma_row_modules(m, y, m.len());
        let pre = matrix_modules(m, (count - 1) as nat);
        let row = row_modules(m, y, m.len());
        let r = matrix_modules(m, count);
        assert(r == pre + row);
        assert forall|k: int|
            0 <= k < r.len() implies 0 <= (#[trigger] r[k]).y < count && 0 <= r[k].x < m.len() && m[r[k].y as int][r[k].x as int]
                && r[k].kind == kind_of(r[k].x as int, r[k].y as int, m.len() as int) by {
            if k < pre.len() {
                assert(r[k] == pre[k]);
            } else {
                assert(r[k] == row[k - pre.len()]);
            }
        }
        assert forall|x: int, yy: int|
            0 <= yy < count && 0 <= x < m.len() && #[trigger] m[yy][x] implies exists|k: int|
                0 <= k < r.len() && r[k].x == x && r[k].y == yy by {
            if yy < y {
                let k = choose|k: int| 0 <= k < pre.len() && pre[k].x == x && pre[k].y == yy;
                assert(r[k] == pre[k]);
            } else {
                let k = choose|k: int| 0 <= k < row.len() && row[k].x == x;
                assert(r[pre.len() + k] == row[k]);
            }
        }
        assert forall|i: int, j: int| 0 <= i < j < r.len() implies before_in_rows(r[i], r[j]) by {
            if j < pre.len() {
                assert(r[i] == pre[i] && r[j] == pre[j]);
            } else if i < pre.len() {
                assert(r[i] == pre[i] && r[j] == row[j - pre.len()]);
            } else {
                assert(r[i] == row[i - pre.len()] && r[j] == row[j - pre.len()]);
            }
        }
    }
}

/// Whether a matrix is square with a size a QR symbol can have.
pub open spec fn square_matrix(m: Seq<Seq<bool>>) -> bool {
    m.len() <= 177 && forall|y: int| 0 <= y < m.len() ==> (#[trigger] m[y]).len() == m.len()
}

/// Lists the dark modules of a square matrix in row-major order with their roles.
pub fn modules_from_matrix(matrix: &Vec<Vec<bool>>) -> (r: Vec<QrModule>)
    requires
        square_matrix(matrix.deep_view()),
    ensures
        r@ == matrix_modules(matrix.deep_view(), matrix@.len()),
{
    let ghost m = matrix.deep_view();
    let size = matrix.len();
    let mut modules: Vec<QrModule> = Vec::new();
    let mut y: usize = 0;
    while y < size
        invariant
            m == matrix.deep_view(),
            square_matrix(m),
            size == m.len(),
            0 <= y <= size,
            modules@ == matrix_modules(m, y as nat),
        decreases size - y,
    {
        let row = &matrix[y];
        assert(row@ == m[y as int]);
        let ghost before = modules@;
        let mut x: usize = 0;
        while x < size
            invariant
                m == matrix.deep_view(),
                square_matrix(m),
                size == m.len(),
                0 <= y < size,
                row@ == m[y as int],
                0 <= x <= size,
                modules@ == before + row_modules(m, y as int, x as nat),
            decreases size - x,
        {
            if row[x] {
                let kind = module_kind(x as i32, y as i32, size as i32);
                modules.push(QrModule { x: x as i32, y: y as i32, kind });
                proof {
                    assert(modules@ =~= before + row_modules(m, y as int, (x + 1) as nat));
                }
            } else {
                proof {
                    assert(modules@ =~= before + row_modules(m, y as int, (x + 1) as nat));
                }
            }
            x = x + 1;
        }
        y = y + 1;
    }
    modules
}

/// The dark modules of the QR code for `data`; none when it does not fit.
pub fn encode_modules(data: &str) -> (r: Vec<QrModule>)
    ensures
        match qr_high_matrix(data@) {
            Some(m) => r@ == matrix_modules(m, m.len()),
            None => r@.len() == 0,
        },
{
    match encode_text_high(data) {
        Some(matrix) => {
            proof {
                assert forall|y: int| 0 <= y < matrix.deep_view().len() implies (#[trigger] matrix.deep_view()[y]).len()
                    == matrix.deep_view().len() by {
                    assert(matrix@[y]@.len() == matrix@.len());
                }
            }
            modules_from_matrix(&matrix)
        },
        None => Vec::new(),
    }
}

/// The side length of the drawn matrix: one past the largest coordinate of a
/// module, or 1 without modules.
pub open spec fn matrix_extent(modules: Seq<QrModule>) -> int
    decreases modules.len(),
{
    if modules.len() == 0 {
        1
    } else {
        let last = modules.last();
        let here = if last.x > last.y {
            last.x + 1
        } else {
            last.y + 1
        };
        let rest = matrix_extent(modules.drop_last());
        if modules.len() == 1 {
            here
        } else if here > rest {
            here
        } else {
            rest
        }
    }
}

/// Computes the viewBox size for the modules.
pub fn matrix_size(modules: &[QrModule]) -> (r: i32)
    requires
        forall|i: int| 0 <= i < modules@.len() ==> 0 <= (#[trigger] modules@[i]).x < i32::MAX && 0
            <= modules@[i].y < i32::MAX,
    ensures
        r == matrix_extent(modules@),
{
    let mut best: i32 = 1;
    let mut i: usize = 0;
    while i < modules.len()
        invariant
            0 <= i <= modules@.len(),
            forall|j: int| 0 <= j < modules@.len() ==> 0 <= (#[trigger] modules@[j]).x < i32::MAX && 0
                <= modules@[j].y < i32::MAX,
            best == matrix_extent(modules@.take(i as int)),
        decreases modules.len() - i,
    {
        let m = modules[i];
        let here = if m.x > m.y {
            m.x + 1
        } else {
            m.y + 1
        };
        proof {
            assert(modules@.take(i + 1).drop_last() =~= modules@.take(i as int));
            assert(modules@.take(i + 1).last() == m);
        }
        if i == 0 || here > best {
            best = here;
        }
        i = i + 1;
    }
    proof {
        assert(modules@.take(modules@.len() as int) =~= modules@);
    }
    best
}

/// A color property that is given and not blank.
pub open spec fn usable_color(color: Option<String>) -> Option<String> {
    match color {
        Some(c) => if trim(c@).len() > 0 {
            Some(c)
        } else {
            None
        },
        None => None,
    }
}

/// Keeps a color property only when it is not blank.
pub fn resolve_color(color: Option<String>) -> (r: Option<String>)
    ensures
        r == usable_color(color),
{
    match color {
        Some(c) => {
            let v = chars_of(c.as_str());
            let (a, b) = trim_range(&v, 0, v.len(), false);
            proof {
                assert(v@.subrange(0, v@.len() as int) =~= c@);
            }
            if a == b {
                None
            } else {
                Some(c)
            }
        },
        None => None,
    }
}

/// The module, finder-ring and finder-center colors: each falls back to the one
/// before it, and the module color to black.
pub fn qr_colors(color: Option<String>, ring_color: Option<String>, center_color: Option<String>) -> (r: (
    String,
    String,
    String,
))
    ensures
        match usable_color(color) {
            Some(c) => r.0 == c,
            None => r.0@ == "#000000"@,
        },
        match usable_color(ring_color) {
            Some(c) => r.1 == c,
            None => r.1 == r.0,
        },
        match usable_color(center_color) {
            Some(c) => r.2 == c,
            None => r.2 == r.1,
        },
{
    let color = match resolve_color(color) {
        Some(c) => c,
        None => string_from("#000000"),
    };
    let ring = match resolve_color(ring_color) {
        Some(c) => c,
        None => color.clone(),
    };
    let center = match resolve_color(center_color) {
        Some(c) => c,
        None => ring.clone(),
    };
    (color, ring, center)
}

/// Root classes of static and interactive QR codes.
pub fn qr_code_class_name(class: Option<String>, interactive: bool) -> (r: String)
    ensures
        r@ == "birei-qr-code"@ + (if interactive {
            " birei-qr-code--interactive"@
        } else {
            Seq::<char>::empty()
        }) + match class {
            Some(c) => seq![' '] + c@,
            None => Seq::<char>::empty(),
        },
{
    let mut classes = string_from("birei-qr-code");
    push_suffix_if(&mut classes, interactive, " birei-qr-code--interactive");
    match &class {
        Some(c) => crate::text::push_class_if(&mut classes, true, c.as_str()),
        None => {},
    }
    classes
}

} // verus!
