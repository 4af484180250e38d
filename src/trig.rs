use vstd::prelude::*;

verus! {

/// Fixed-point scale of the sine and cosine tables: 10000 stands for 1.
pub const TRIG_SCALE: i64 = 10000;

/// sin(d degrees) * 10000, rounded to the nearest integer, for 0 <= d <= 90.
pub open spec fn sin_table(d: u32) -> int {
    match d {
        0 => 0,
        1 => 175,
        2 => 349,
        3 => 523,
        4 => 698,
        5 => 872,
        6 => 1045,
        7 => 1219,
        8 => 1392,
        9 => 1564,
        10 => 1736,
        11 => 1908,
        12 => 2079,
        13 => 2250,
        14 => 2419,
        15 => 2588,
        16 => 2756,
        17 => 2924,
        18 => 3090,
        19 => 3256,
        20 => 3420,
        21 => 3584,
        22 => 3746,
        23 => 3907,
        24 => 4067,
        25 => 4226,
        26 => 4384,
        27 => 4540,
        28 => 4695,
        29 => 4848,
        30 => 5000,
        31 => 5150,
        32 => 5299,
        33 => 5446,
        34 => 5592,
        35 => 5736,
        36 => 5878,
        37 => 6018,
        38 => 6157,
        39 => 6293,
        40 => 6428,
        41 => 6561,
        42 => 6691,
        43 => 6820,
        44 => 6947,
        45 => 7071,
        46 => 7193,
        47 => 7314,
        48 => 7431,
        49 => 7547,
        50 => 7660,
        51 => 7771,
        52 => 7880,
        53 => 7986,
        54 => 8090,
        55 => 8192,
        56 => 8290,
        57 => 8387,
        58 => 8480,
        59 => 8572,
        60 => 8660,
        61 => 8746,
        62 => 8829,
        63 => 8910,
        64 => 8988,
        65 => 9063,
        66 => 9135,
        67 => 9205,
        68 => 9272,
        69 => 9336,
        70 => 9397,
        71 => 9455,
        72 => 9511,
        73 => 9563,
        74 => 9613,
        75 => 9659,
        76 => 9703,
        77 => 9744,
        78 => 9781,
        79 => 9816,
        80 => 9848,
        81 => 9877,
        82 => 9903,
        83 => 9925,
        84 => 9945,
        85 => 9962,
        86 => 9976,
        87 => 9986,
        88 => 9994,
        89 => 9998,
        _ => 10000,
    }
}

/// Scaled sine of an angle in whole degrees in [0, 180).
pub open spec fn sin_deg(a: u32) -> int {
    if a <= 90 {
        sin_table(a)
    } else {
        sin_table((180 - a) as u32)
    }
}

/// Scaled cosine of an angle in whole degrees in [0, 180).
pub open spec fn cos_deg(a: u32) -> int {
    if a <= 90 {
        sin_table((90 - a) as u32)
    } else {
        -sin_table((a - 90) as u32)
    }
}

fn sine_table_entry(d: u32) -> (s: i64)
    requires
        d <= 90,
    ensures
        s == sin_table(d),
        0 <= s <= TRIG_SCALE,
{
    match d {
            0 => 0,
            1 => 175,
            2 => 349,
            3 => 523,
            4 => 698,
            5 => 872,
            6 => 1045,
            7 => 1219,
            8 => 1392,
            9 => 1564,
            10 => 1736,
            11 => 1908,
            12 => 2079,
            13 => 2250,
            14 => 2419,
            15 => 2588,
            16 => 2756,
            17 => 2924,
            18 => 3090,
            19 => 3256,
            20 => 3420,
            21 => 3584,
            22 => 3746,
            23 => 3907,
            24 => 4067,
            25 => 4226,
            26 => 4384,
            27 => 4540,
            28 => 4695,
            29 => 4848,
            30 => 5000,
            31 => 5150,
            32 => 5299,
            33 => 5446,
            34 => 5592,
            35 => 5736,
            36 => 5878,
            37 => 6018,
            38 => 6157,
            39 => 6293,
            40 => 6428,
            41 => 6561,
            42 => 6691,
            43 => 6820,
            44 => 6947,
            45 => 7071,
            46 => 7193,
            47 => 7314,
            48 => 7431,
            49 => 7547,
            50 => 7660,
            51 => 7771,
            52 => 7880,
            53 => 7986,
            54 => 8090,
            55 => 8192,
            56 => 8290,
            57 => 8387,
            58 => 8480,
            59 => 8572,
            60 => 8660,
            61 => 8746,
            62 => 8829,
            63 => 8910,
            64 => 8988,
            65 => 9063,
            66 => 9135,
            67 => 9205,
            68 => 9272,
            69 => 9336,
            70 => 9397,
            71 => 9455,
            72 => 9511,
            73 => 9563,
            74 => 9613,
            75 => 9659,
            76 => 9703,
            77 => 9744,
            78 => 9781,
            79 => 9816,
            80 => 9848,
            81 => 9877,
            82 => 9903,
            83 => 9925,
            84 => 9945,
            85 => 9962,
            86 => 9976,
            87 => 9986,
            88 => 9994,
            89 => 9998,
            _ => 10000,
    }
}

/// Scaled sine and cosine of an angle in whole degrees.
pub fn sin_cos_deg(a: u32) -> (r: (i64, i64))
    requires
        a < 180,
    ensures
        r.0 == sin_deg(a),
        r.1 == cos_deg(a),
        0 <= r.0 <= TRIG_SCALE,
        -TRIG_SCALE <= r.1 <= TRIG_SCALE,
{
    if a <= 90 {
        (sine_table_entry(a), sine_table_entry(90 - a))
    } else {
        (sine_table_entry(180 - a), -sine_table_entry(a - 90))
    }
}

} // verus!
