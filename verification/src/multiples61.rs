//! The multiples of the point `(5, 7)` on the curve `y² = x³ + 9·x + 1` modulo
//! 61, and what follows from the list of them: the point generates a group of
//! 73 elements in which multiples add like their indices modulo 73.

use crate::curve61::curve61;
use crate::ff61::lemma_61_is_prime;
use crate::group_law::{
    add_points, chord_slope, is_associative, law_add_commutative,
    law_agreement_given_associativity, lemma_distinct_not_congruent, lemma_multiple_successor,
    on_curve, quotient, scalar_multiple, tangent_slope, third_point, Point,
};
use crate::modular::{
    lemma_congruent_mul, lemma_congruent_reduce, lemma_congruent_sub, lemma_inverse_is,
};
use vstd::arithmetic::div_mod::{
    lemma_add_mod_noop, lemma_mod_add_multiples_vanish, lemma_mod_multiples_vanish,
    lemma_mul_mod_noop_general, lemma_small_mod,
};
use vstd::prelude::*;

verus! {

/// The abscissa of the multiple `i·(5, 7)`, for `i` from 1 to 72.
#[verifier::opaque]
pub open spec fn multiple_x(i: u8) -> u8 {
    match i {
        1 => 5,
        2 => 26,
        3 => 27,
        4 => 48,
        5 => 30,
        6 => 7,
        7 => 52,
        8 => 53,
        9 => 39,
        10 => 21,
        11 => 8,
        12 => 60,
        13 => 54,
        14 => 17,
        15 => 51,
        16 => 19,
        17 => 33,
        18 => 43,
        19 => 14,
        20 => 28,
        21 => 37,
        22 => 32,
        23 => 2,
        24 => 59,
        25 => 49,
        26 => 41,
        27 => 56,
        28 => 42,
        29 => 13,
        30 => 34,
        31 => 6,
        32 => 35,
        33 => 25,
        34 => 15,
        35 => 55,
        36 => 0,
        37 => 0,
        38 => 55,
        39 => 15,
        40 => 25,
        41 => 35,
        42 => 6,
        43 => 34,
        44 => 13,
        45 => 42,
        46 => 56,
        47 => 41,
        48 => 49,
        49 => 59,
        50 => 2,
        51 => 32,
        52 => 37,
        53 => 28,
        54 => 14,
        55 => 43,
        56 => 33,
        57 => 19,
        58 => 51,
        59 => 17,
        60 => 54,
        61 => 60,
        62 => 8,
        63 => 21,
        64 => 39,
        65 => 53,
        66 => 52,
        67 => 7,
        68 => 30,
        69 => 48,
        70 => 27,
        71 => 26,
        72 => 5,
        _ => 0,
    }
}

/// The ordinate of the multiple `i·(5, 7)`, for `i` from 1 to 72.
#[verifier::opaque]
pub open spec fn multiple_y(i: u8) -> u8 {
    match i {
        1 => 7,
        2 => 50,
        3 => 38,
        4 => 35,
        5 => 59,
        6 => 23,
        7 => 44,
        8 => 24,
        9 => 14,
        10 => 22,
        11 => 55,
        12 => 28,
        13 => 12,
        14 => 59,
        15 => 58,
        16 => 4,
        17 => 60,
        18 => 30,
        19 => 2,
        20 => 60,
        21 => 28,
        22 => 42,
        23 => 24,
        24 => 55,
        25 => 42,
        26 => 42,
        27 => 40,
        28 => 48,
        29 => 27,
        30 => 12,
        31 => 37,
        32 => 8,
        33 => 33,
        34 => 41,
        35 => 6,
        36 => 60,
        37 => 1,
        38 => 55,
        39 => 20,
        40 => 28,
        41 => 53,
        42 => 24,
        43 => 49,
        44 => 34,
        45 => 13,
        46 => 21,
        47 => 19,
        48 => 19,
        49 => 6,
        50 => 37,
        51 => 19,
        52 => 33,
        53 => 1,
        54 => 59,
        55 => 31,
        56 => 1,
        57 => 57,
        58 => 3,
        59 => 2,
        60 => 49,
        61 => 33,
        62 => 6,
        63 => 39,
        64 => 47,
        65 => 37,
        66 => 17,
        67 => 38,
        68 => 2,
        69 => 26,
        70 => 23,
        71 => 11,
        72 => 54,
        _ => 0,
    }
}

/// The inverse of `d` modulo 61, for `d` from 1 to 60.
#[verifier::opaque]
pub open spec fn inverse_61(d: u8) -> u8 {
    match d {
        1 => 1,
        2 => 31,
        3 => 41,
        4 => 46,
        5 => 49,
        6 => 51,
        7 => 35,
        8 => 23,
        9 => 34,
        10 => 55,
        11 => 50,
        12 => 56,
        13 => 47,
        14 => 48,
        15 => 57,
        16 => 42,
        17 => 18,
        18 => 17,
        19 => 45,
        20 => 58,
        21 => 32,
        22 => 25,
        23 => 8,
        24 => 28,
        25 => 22,
        26 => 54,
        27 => 52,
        28 => 24,
        29 => 40,
        30 => 59,
        31 => 2,
        32 => 21,
        33 => 37,
        34 => 9,
        35 => 7,
        36 => 39,
        37 => 33,
        38 => 53,
        39 => 36,
        40 => 29,
        41 => 3,
        42 => 16,
        43 => 44,
        44 => 43,
        45 => 19,
        46 => 4,
        47 => 13,
        48 => 14,
        49 => 5,
        50 => 11,
        51 => 6,
        52 => 27,
        53 => 38,
        54 => 26,
        55 => 10,
        56 => 12,
        57 => 15,
        58 => 20,
        59 => 30,
        60 => 60,
        _ => 0,
    }
}

/// The chord through two different multiples that are not opposite meets the
/// curve again in the negative of the multiple by the sum. Every number but
/// `i` and `j` is fixed by the hypotheses, and the smaller index comes first.
#[verifier::rlimit(100)]
proof fn lemma_chord_table(
    i: u8,
    j: u8,
    k: u8,
    x1: u8,
    y1: u8,
    x2: u8,
    y2: u8,
    xk: u8,
    yk: u8,
    d: u8,
    n: u8,
    v: u8,
    s: u8,
    x3: u8,
    t: u8,
    y3: u8,
)
    requires
        1 <= i < j,
        j < 73,
        i + j != 73,
        k == (i + j) % 73,
        x1 == multiple_x(i),
        y1 == multiple_y(i),
        x2 == multiple_x(j),
        y2 == multiple_y(j),
        xk == multiple_x(k),
        yk == multiple_y(k),
        d == (x2 + 61 - x1) % 61,
        n == (y2 + 61 - y1) % 61,
        v == inverse_61(d),
        s == (n * v) % 61,
        x3 == (s * s + 122 - x1 - x2) % 61,
        t == (x1 + 61 - x3) % 61,
        y3 == (s * t + 61 - y1) % 61,
    ensures
        x1 != x2,
        x3 == xk,
        y3 == yk,
{
    assert(1 <= i && i < j && j < 73 && i + j != 73 && k == (i + j) % 73
        && x1 == multiple_x(i) && y1 == multiple_y(i) && x2 == multiple_x(j) && y2 == multiple_y(
        j,
    ) && xk == multiple_x(k) && yk == multiple_y(k) && d == (x2 + 61 - x1) % 61 && n == (y2 + 61
        - y1) % 61 && v == inverse_61(d) && s == (n * v) % 61 && x3 == (s * s + 122 - x1 - x2)
        % 61 && t == (x1 + 61 - x3) % 61 && y3 == (s * t + 61 - y1) % 61 ==> x1 != x2 && x3 == xk
        && y3 == yk) by (bit_vector);
}

/// The tangent at a multiple meets the curve again in the negative of the
/// multiple by twice the index.
#[verifier::rlimit(100)]
proof fn lemma_tangent_table(
    i: u8,
    k: u8,
    x1: u8,
    y1: u8,
    xk: u8,
    yk: u8,
    d: u8,
    n: u8,
    v: u8,
    s: u8,
    x3: u8,
    t: u8,
    y3: u8,
)
    requires
        1 <= i < 73,
        k == (i + i) % 73,
        x1 == multiple_x(i),
        y1 == multiple_y(i),
        xk == multiple_x(k),
        yk == multiple_y(k),
        d == (2 * y1) % 61,
        n == (3 * x1 * x1 + 9) % 61,
        v == inverse_61(d),
        s == (n * v) % 61,
        x3 == (s * s + 122 - x1 - x1) % 61,
        t == (x1 + 61 - x3) % 61,
        y3 == (s * t + 61 - y1) % 61,
    ensures
        x3 == xk,
        y3 == yk,
{
    assert(1 <= i && i < 73 && k == (i + i) % 73 && x1 == multiple_x(i) && y1 == multiple_y(i)
        && xk == multiple_x(k) && yk == multiple_y(k) && d == (2 * y1) % 61 && n == (3 * x1 * x1
        + 9) % 61 && v == inverse_61(d) && s == (n * v) % 61 && x3 == (s * s + 122 - x1 - x1)
        % 61 && t == (x1 + 61 - x3) % 61 && y3 == (s * t + 61 - y1) % 61 ==> x3 == xk && y3
        == yk) by (bit_vector);
}

/// Every multiple has reduced coordinates and an ordinate other than zero,
/// and the multiple by `73 - i` is the mirror image of the multiple by `i`.
proof fn lemma_mirror_table(i: u8, j: u8)
    requires
        1 <= i < 73,
        j == 73 - i,
    ensures
        multiple_x(i) < 61,
        0 < multiple_y(i) < 61,
        multiple_x(j) == multiple_x(i),
        multiple_y(j) == 61 - multiple_y(i),
{
    assert(1 <= i && i < 73 && j == 73 - i ==> multiple_x(i) < 61 && 0 < multiple_y(i)
        && multiple_y(i) < 61 && multiple_x(j) == multiple_x(i) && multiple_y(j) == 61
        - multiple_y(i)) by (bit_vector);
}

/// Every multiple satisfies the curve equation.
proof fn lemma_curve_table(i: u8, x: u8, y: u8)
    requires
        1 <= i < 73,
        x == multiple_x(i),
        y == multiple_y(i),
    ensures
        x < 61,
        y < 61,
        (y * y) % 61 == (x * x * x + 9 * x + 1) % 61,
{
    assert(1 <= i && i < 73 && x == multiple_x(i) && y == multiple_y(i) ==> x < 61 && y < 61 && (y
        * y) % 61 == (x * x * x + 9 * x + 1) % 61) by (bit_vector);
}

/// The table of inverses holds inverses.
proof fn lemma_inverse_table(d: u8)
    requires
        1 <= d < 61,
    ensures
        (d * inverse_61(d)) % 61 == 1,
        inverse_61(d) < 61,
{
    assert(1 <= d && d < 61 ==> (d * inverse_61(d)) % 61 == 1 && inverse_61(d) < 61)
        by (bit_vector);
}

/// The index of the multiple with coordinates `(x, y)`, or 0 where no
/// multiple has them.
#[verifier::opaque]
pub open spec fn index_of(x: u8, y: u8) -> u8 {
    match x {
        0 => if y == 1 {
            37
        } else if y == 60 {
            36
        } else {
            0
        },
        2 => if y == 24 {
            23
        } else if y == 37 {
            50
        } else {
            0
        },
        5 => if y == 7 {
            1
        } else if y == 54 {
            72
        } else {
            0
        },
        6 => if y == 24 {
            42
        } else if y == 37 {
            31
        } else {
            0
        },
        7 => if y == 23 {
            6
        } else if y == 38 {
            67
        } else {
            0
        },
        8 => if y == 6 {
            62
        } else if y == 55 {
            11
        } else {
            0
        },
        13 => if y == 27 {
            29
        } else if y == 34 {
            44
        } else {
            0
        },
        14 => if y == 2 {
            19
        } else if y == 59 {
            54
        } else {
            0
        },
        15 => if y == 20 {
            39
        } else if y == 41 {
            34
        } else {
            0
        },
        17 => if y == 2 {
            59
        } else if y == 59 {
            14
        } else {
            0
        },
        19 => if y == 4 {
            16
        } else if y == 57 {
            57
        } else {
            0
        },
        21 => if y == 22 {
            10
        } else if y == 39 {
            63
        } else {
            0
        },
        25 => if y == 28 {
            40
        } else if y == 33 {
            33
        } else {
            0
        },
        26 => if y == 11 {
            71
        } else if y == 50 {
            2
        } else {
            0
        },
        27 => if y == 23 {
            70
        } else if y == 38 {
            3
        } else {
            0
        },
        28 => if y == 1 {
            53
        } else if y == 60 {
            20
        } else {
            0
        },
        30 => if y == 2 {
            68
        } else if y == 59 {
            5
        } else {
            0
        },
        32 => if y == 19 {
            51
        } else if y == 42 {
            22
        } else {
            0
        },
        33 => if y == 1 {
            56
        } else if y == 60 {
            17
        } else {
            0
        },
        34 => if y == 12 {
            30
        } else if y == 49 {
            43
        } else {
            0
        },
        35 => if y == 8 {
            32
        } else if y == 53 {
            41
        } else {
            0
        },
        37 => if y == 28 {
            21
        } else if y == 33 {
            52
        } else {
            0
        },
        39 => if y == 14 {
            9
        } else if y == 47 {
            64
        } else {
            0
        },
        41 => if y == 19 {
            47
        } else if y == 42 {
            26
        } else {
            0
        },
        42 => if y == 13 {
            45
        } else if y == 48 {
            28
        } else {
            0
        },
        43 => if y == 30 {
            18
        } else if y == 31 {
            55
        } else {
            0
        },
        48 => if y == 26 {
            69
        } else if y == 35 {
            4
        } else {
            0
        },
        49 => if y == 19 {
            48
        } else if y == 42 {
            25
        } else {
            0
        },
        51 => if y == 3 {
            58
        } else if y == 58 {
            15
        } else {
            0
        },
        52 => if y == 17 {
            66
        } else if y == 44 {
            7
        } else {
            0
        },
        53 => if y == 24 {
            8
        } else if y == 37 {
            65
        } else {
            0
        },
        54 => if y == 12 {
            13
        } else if y == 49 {
            60
        } else {
            0
        },
        55 => if y == 6 {
            35
        } else if y == 55 {
            38
        } else {
            0
        },
        56 => if y == 21 {
            46
        } else if y == 40 {
            27
        } else {
            0
        },
        59 => if y == 6 {
            49
        } else if y == 55 {
            24
        } else {
            0
        },
        60 => if y == 28 {
            12
        } else if y == 33 {
            61
        } else {
            0
        },
        _ => 0,
    }
}

/// Every point of the curve with coordinates is a multiple of `(5, 7)`.
proof fn lemma_index_table(x: u8, y: u8, i: u8)
    requires
        x < 61,
        y < 61,
        (y * y) % 61 == (x * x * x + 9 * x + 1) % 61,
        i == index_of(x, y),
    ensures
        1 <= i < 73,
        multiple_x(i) == x,
        multiple_y(i) == y,
{
    assert(x < 61 && y < 61 && (y * y) % 61 == (x * x * x + 9 * x + 1) % 61 && i == index_of(x, y)
        ==> 1 <= i && i < 73 && multiple_x(i) == x && multiple_y(i) == y) by (bit_vector);
}

/// The multiple `i·(5, 7)` as a point of the model, for `i` from 0 to 72.
pub open spec fn multiple(i: int) -> Point {
    if i == 0 {
        Point::Infinity
    } else {
        Point::Affine { x: multiple_x(i as u8) as int, y: multiple_y(i as u8) as int }
    }
}

/// The quotient in the field is the numerator times the inverse from the
/// table.
proof fn lemma_quotient_by_table(n: int, d: int)
    requires
        d % 61 != 0,
    ensures
        quotient(n, d, 61) == ((n % 61) * inverse_61((d % 61) as u8)) % 61,
{
    let r = (d % 61) as u8;
    lemma_inverse_table(r);
    lemma_inverse_is(d % 61, inverse_61(r) as int, 61);
    lemma_mul_mod_noop_general(n, inverse_61(r) as int, 61);
}

/// The third point with every intermediate number kept from 0 to 60.
proof fn lemma_third_point_reduced(s: int, x1: int, y1: int, x2: int)
    requires
        0 <= s < 61,
        0 <= x1 < 61,
        0 <= y1 < 61,
        0 <= x2 < 61,
    ensures
        third_point(curve61(), s, x1, y1, x2) == ({
            let x3 = (s * s + 122 - x1 - x2) % 61;
            let t = (x1 + 61 - x3) % 61;
            Point::Affine { x: x3, y: (s * t + 61 - y1) % 61 }
        }),
{
    let x3 = (s * s + 122 - x1 - x2) % 61;
    let t = (x1 + 61 - x3) % 61;
    lemma_mod_multiples_vanish(2, s * s - x1 - x2, 61);
    assert((s * s - x1 - x2) % 61 == x3);
    lemma_mod_add_multiples_vanish(x1 - x3, 61);
    lemma_congruent_reduce(x1 + 61 - x3, 61);
    lemma_congruent_mul(s, s, t, x1 - x3, 61);
    lemma_congruent_sub(s * t, s * (x1 - x3), y1, y1, 61);
    lemma_mod_add_multiples_vanish(s * t - y1, 61);
}

/// A multiple added to itself is the multiple by twice the index.
#[verifier::rlimit(50)]
proof fn lemma_multiples_double(i: int)
    requires
        1 <= i < 73,
    ensures
        add_points(curve61(), multiple(i), multiple(i)) == multiple((i + i) % 73),
{
    let c = curve61();
    let a = i as u8;
    let x1 = multiple_x(a);
    let y1 = multiple_y(a);
    let k = ((i + i) % 73) as u8;
    let d = ((2 * y1) % 61) as u8;
    let n = ((3 * x1 * x1 + 9) % 61) as u8;
    let v = inverse_61(d);
    let s = ((n * v) % 61) as u8;
    let x3 = ((s * s + 122 - x1 - x1) % 61) as u8;
    let t = ((x1 + 61 - x3) % 61) as u8;
    let y3 = ((s * t + 61 - y1) % 61) as u8;
    lemma_mirror_table(a, (73 - a) as u8);
    lemma_tangent_table(a, k, x1, y1, multiple_x(k), multiple_y(k), d, n, v, s, x3, t, y3);
    // the ordinate is not its own negative, so the tangent is taken
    lemma_mod_add_multiples_vanish(-(y1 as int), 61);
    lemma_small_mod((61 - y1) as nat, 61);
    assert(y1 as int != (-(y1 as int)) % 61);
    lemma_quotient_by_table(3 * x1 * x1 + 9, 2 * y1);
    assert(tangent_slope(c, x1 as int, y1 as int) == s);
    lemma_third_point_reduced(s as int, x1 as int, y1 as int, x1 as int);
    assert(third_point(c, s as int, x1 as int, y1 as int, x1 as int) == multiple(k as int));
}

/// Opposite multiples cancel.
proof fn lemma_multiples_cancel(i: int)
    requires
        1 <= i < 73,
    ensures
        add_points(curve61(), multiple(i), multiple(73 - i)) == Point::Infinity,
{
    let a = i as u8;
    let b = (73 - i) as u8;
    lemma_mirror_table(a, b);
    let y2 = multiple_y(b);
    lemma_mod_add_multiples_vanish(-(y2 as int), 61);
    lemma_small_mod((61 - y2) as nat, 61);
}

/// Every multiple is a point of the curve.
pub proof fn lemma_multiple_on_curve(i: int)
    requires
        0 <= i < 73,
    ensures
        on_curve(curve61(), multiple(i)),
{
    if i != 0 {
        let a = i as u8;
        lemma_curve_table(a, multiple_x(a), multiple_y(a));
    }
}

/// Two different multiples that are not opposite add along the chord to the
/// multiple by the sum of the indices.
#[verifier::rlimit(50)]
proof fn lemma_multiples_chord(i: int, j: int)
    requires
        1 <= i < j < 73,
        i + j != 73,
    ensures
        add_points(curve61(), multiple(i), multiple(j)) == multiple((i + j) % 73),
{
    let c = curve61();
    let a = i as u8;
    let b = j as u8;
    let x1 = multiple_x(a);
    let y1 = multiple_y(a);
    let x2 = multiple_x(b);
    let y2 = multiple_y(b);
    let k = ((i + j) % 73) as u8;
    let d = ((x2 + 61 - x1) % 61) as u8;
    let n = ((y2 + 61 - y1) % 61) as u8;
    let v = inverse_61(d);
    let s = ((n * v) % 61) as u8;
    let x3 = ((s * s + 122 - x1 - x2) % 61) as u8;
    let t = ((x1 + 61 - x3) % 61) as u8;
    let y3 = ((s * t + 61 - y1) % 61) as u8;
    lemma_mirror_table(a, (73 - a) as u8);
    lemma_mirror_table(b, (73 - b) as u8);
    lemma_chord_table(
        a,
        b,
        k,
        x1,
        y1,
        x2,
        y2,
        multiple_x(k),
        multiple_y(k),
        d,
        n,
        v,
        s,
        x3,
        t,
        y3,
    );
    lemma_distinct_not_congruent(x1 as int, x2 as int, 61);
    lemma_mod_add_multiples_vanish(x2 - x1, 61);
    lemma_mod_add_multiples_vanish(y2 - y1, 61);
    lemma_quotient_by_table(y2 - y1, x2 - x1);
    assert(chord_slope(c, x1 as int, y1 as int, x2 as int, y2 as int) == s);
    lemma_third_point_reduced(s as int, x1 as int, y1 as int, x2 as int);
    assert(third_point(c, s as int, x1 as int, y1 as int, x2 as int) == multiple(k as int));
}

/// Multiples of `(5, 7)` add like their indices modulo 73.
pub proof fn lemma_multiples_add(i: int, j: int)
    requires
        0 <= i < 73,
        0 <= j < 73,
    ensures
        add_points(curve61(), multiple(i), multiple(j)) == multiple((i + j) % 73),
{
    if i == 0 || j == 0 {
    } else if i + j == 73 {
        lemma_multiples_cancel(i);
    } else if i == j {
        lemma_multiples_double(i);
    } else if i < j {
        lemma_multiples_chord(i, j);
    } else {
        lemma_multiples_chord(j, i);
        lemma_61_is_prime();
        lemma_multiple_on_curve(i);
        lemma_multiple_on_curve(j);
        law_add_commutative(curve61(), multiple(i), multiple(j));
    }
}

/// Every point of the curve is a multiple of `(5, 7)`. The index comes back
/// as the result.
pub proof fn lemma_point_is_multiple(pt: Point) -> (a: int)
    requires
        on_curve(curve61(), pt),
    ensures
        0 <= a < 73,
        pt == multiple(a),
{
    match pt {
        Point::Infinity => 0,
        Point::Affine { x, y } => {
            let i = index_of(x as u8, y as u8);
            lemma_index_table(x as u8, y as u8, i);
            i as int
        },
    }
}

/// Addition on this curve is associative.
pub proof fn lemma_associative_61()
    ensures
        is_associative(curve61()),
{
    let c = curve61();
    assert forall|u: Point, v: Point, w: Point|
        on_curve(c, u) && on_curve(c, v) && on_curve(c, w) implies #[trigger] add_points(
        c,
        add_points(c, u, v),
        w,
    ) == add_points(c, u, add_points(c, v, w)) by {
        let i = lemma_point_is_multiple(u);
        let j = lemma_point_is_multiple(v);
        let k = lemma_point_is_multiple(w);
        lemma_multiples_add(i, j);
        lemma_multiples_add((i + j) % 73, k);
        lemma_multiples_add(j, k);
        lemma_multiples_add(i, (j + k) % 73);
        // both sides are the multiple by i + j + k
        lemma_add_mod_noop(i + j, k, 73);
        lemma_add_mod_noop(i, j + k, 73);
        lemma_small_mod(i as nat, 73);
        lemma_small_mod(k as nat, 73);
    }
}

/// Two parties who each multiply the other's multiple of a point of the curve
/// by their own scalar arrive at the same point, whatever the two scalars.
pub proof fn law_agreement_61(pt: Point, ka: nat, kb: nat)
    requires
        on_curve(curve61(), pt),
    ensures
        scalar_multiple(curve61(), scalar_multiple(curve61(), pt, ka), kb) == scalar_multiple(
            curve61(),
            scalar_multiple(curve61(), pt, kb),
            ka,
        ),
{
    lemma_61_is_prime();
    lemma_associative_61();
    law_agreement_given_associativity(curve61(), pt, ka, kb);
}

/// On this curve the next multiple of a point is the multiple plus the point,
/// whatever the scalar.
pub proof fn law_successor_61(pt: Point, k: nat)
    requires
        on_curve(curve61(), pt),
    ensures
        scalar_multiple(curve61(), pt, k + 1) == add_points(
            curve61(),
            scalar_multiple(curve61(), pt, k),
            pt,
        ),
{
    lemma_61_is_prime();
    lemma_associative_61();
    lemma_multiple_successor(curve61(), pt, k);
}

} // verus!
