use pxls_render::region::Region;

const SAMPLES: [u32; 6] = [0, 1, 7, 1000, u32::MAX - 1, u32::MAX];

#[test]
fn region_new() {
    for &x1 in SAMPLES.iter() {
        for &y1 in SAMPLES.iter() {
            for &x2 in SAMPLES.iter() {
                for &y2 in SAMPLES.iter() {
                    let region = Region::new(x1, y1, x2, y2);
                    if x1 <= x2 && y1 <= y2 {
                        assert!(region.is_some());
                        let r = region.unwrap();
                        assert!(r.start() == (x1, y1));
                        assert!(r.end() == (x2, y2));
                    } else {
                        assert!(region.is_none());
                    }
                }
            }
        }
    }
}

#[test]
fn region_new_point() {
    // a region from a point to itself is empty: its end is excluded
    for &x in SAMPLES.iter() {
        for &y in SAMPLES.iter() {
            let region = Region::new(x, y, x, y);
            assert!(region.is_some());
            let r = region.unwrap();
            assert!(r.start() == (x, y));
            assert!(r.end() == (x, y));
            assert!(!r.contains(x, y));
        }
    }
}

#[test]
fn region_trifecta() {
    let region_a = Region::new(u32::MIN, u32::MIN, u32::MAX, u32::MAX).unwrap();
    let region_b = Region::default();
    let region_c = Region::all();

    assert_eq!(region_a, region_b);
    assert_eq!(region_b, region_c);
    assert_eq!(region_c, region_a);
}

#[test]
fn region_from_slice() {
    let lists: Vec<Vec<u32>> = vec![
        vec![],
        vec![5],
        vec![5, 6],
        vec![5, 6, 7],
        vec![5, 6, 7, 8],
        vec![5, 6, 7, 8, 9],
        vec![9, 6, 7, 8],
        vec![5, 9, 7, 8],
        vec![u32::MAX],
        vec![0, u32::MAX, 0],
    ];
    for items in lists.iter() {
        if (1..=4).contains(&items.len()) {
            assert_eq!(
                Region::from_slice(items),
                Region::new(
                    *items.first().unwrap_or(&u32::MIN),
                    *items.get(1).unwrap_or(&u32::MIN),
                    *items.get(2).unwrap_or(&u32::MAX),
                    *items.get(3).unwrap_or(&u32::MAX),
                )
            );
        } else {
            assert_eq!(Region::from_slice(items), None);
        }
    }
}

#[test]
fn region_fields() {
    let corners = [(0, 0, 1, 1), (3, 4, 10, 20), (0, 0, u32::MAX, u32::MAX), (7, 7, 7, 9)];
    for &(x1, y1, x2, y2) in corners.iter() {
        let region = Region::new(x1, y1, x2, y2).unwrap();
        assert_eq!(region.start(), (x1, y1));
        assert_eq!(region.end(), (x2, y2));
        assert_eq!(region.width(), x2 - x1);
        assert_eq!(region.height(), y2 - y1);
    }
}

#[test]
fn region_contains() {
    let region = Region::new(10, 20, 30, 40).unwrap();
    assert!(region.contains(10, 20));
    assert!(region.contains(29, 39));
    assert!(!region.contains(30, 40));
    for &x in [0u32, 9, 10, 11, 29, 30, 31, u32::MAX].iter() {
        for &y in [0u32, 19, 20, 21, 39, 40, 41, u32::MAX].iter() {
            let inside = x >= 10 && x < 30 && y >= 20 && y < 40;
            assert_eq!(region.contains(x, y), inside);
        }
    }
}
