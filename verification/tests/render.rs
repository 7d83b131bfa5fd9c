use raytracer::render::render_row;
use raytracer::schedule::Job;
use raytracer::test_pattern::Scene;
use std::cell::Cell;

#[test]
fn row_comes_back_with_its_index() {
    let (row, samples) = render_row(Job { row: 7, samples: 4 }, 3, 0u32, |_, _| 1, |a, b| a + b);
    assert_eq!(row, 7);
    assert_eq!(samples, vec![4, 4, 4]);
}

#[test]
fn row_takes_each_pixel_the_given_number_of_draws() {
    let draws = Cell::new(0u32);
    let seen = Cell::new((0usize, 0usize));
    let (_, samples) = render_row(
        Job { row: 2, samples: 8 },
        5,
        0u32,
        |x, y| {
            draws.set(draws.get() + 1);
            seen.set((x, y));
            x as u32
        },
        |a, b| a + b,
    );
    assert_eq!(draws.get(), 40);
    assert_eq!(seen.get(), (4, 2));
    assert_eq!(samples, vec![0, 8, 16, 24, 32]);
}

#[test]
fn row_joins_the_draws_in_the_order_taken() {
    let count = Cell::new(0u32);
    let (_, samples) = render_row(
        Job { row: 0, samples: 3 },
        2,
        String::new().len() as u64,
        |_, _| {
            count.set(count.get() + 1);
            count.get() as u64
        },
        |sum, drawn| sum * 10 + drawn,
    );
    assert_eq!(samples, vec![123, 456]);
}

#[test]
fn row_of_no_draws_is_all_zero() {
    let (_, samples) = render_row(Job { row: 0, samples: 0 }, 2, 9u8, |_, _| 1, |a, b| a + b);
    assert_eq!(samples, vec![9, 9]);
}

#[test]
fn row_of_no_width_is_empty() {
    let (row, samples) = render_row(Job { row: 3, samples: 2 }, 0, 0u8, |_, _| 1, |a, b| a + b);
    assert_eq!(row, 3);
    assert!(samples.is_empty());
}

#[test]
fn row_of_the_test_pattern_averages_to_the_pattern() {
    let job = Job { row: 5, samples: 16 };
    let scene = Scene;
    let (_, samples) = render_row(
        job,
        4,
        0.0f32,
        |x, y| scene.render(x, y) as f32 / job.samples as f32,
        |sum, drawn| sum + drawn,
    );
    assert_eq!(samples, vec![5.0, 4.0, 7.0, 6.0]);
}
