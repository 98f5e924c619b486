use jiro_nn::error::Error;
use jiro_nn::linalg::Matrix;
use jiro_nn::scalar::Scalar;
use jiro_nn::vision::image::Image;

#[derive(Clone, Copy, Debug, PartialEq)]
struct Real(f64);

impl Scalar for Real {
    fn zero() -> Self {
        Real(0.0)
    }

    fn one() -> Self {
        Real(1.0)
    }

    fn from_count(n: usize) -> Self {
        Real(n as f64)
    }

    fn to_count(self) -> usize {
        self.0 as usize
    }

    fn add(self, rhs: Self) -> Self {
        Real(self.0 + rhs.0)
    }

    fn sub(self, rhs: Self) -> Self {
        Real(self.0 - rhs.0)
    }

    fn mul(self, rhs: Self) -> Self {
        Real(self.0 * rhs.0)
    }

    fn div(self, rhs: Self) -> Self {
        Real(self.0 / rhs.0)
    }

    fn sqrt(self) -> Self {
        Real(self.0.sqrt())
    }

    fn exp(self) -> Self {
        Real(self.0.exp())
    }

    fn lt(self, rhs: Self) -> bool {
        self.0 < rhs.0
    }

    fn is_finite(self) -> bool {
        self.0.is_finite()
    }

    fn equals(self, rhs: Self) -> bool {
        self.0 == rhs.0
    }

    fn from_text(text: &str) -> Option<Self> {
        text.parse::<f64>().ok().map(Real)
    }
}

fn reals(values: &[f64]) -> Vec<Real> {
    values.iter().map(|v| Real(*v)).collect()
}

fn entries(matrix: &Matrix<Real>) -> Vec<f64> {
    matrix.get_data_col_leading().into_iter().flatten().map(|v| v.0).collect()
}

/// An image whose entry in row r, column c, channel ch and sample s is 1000 s + 100 ch +
/// 10 r + c.
fn numbered(nrow: usize, ncol: usize, nchan: usize, samples: usize) -> Image<Real> {
    Image::from_fn(nrow, ncol, nchan, samples, |c, r, ch, s| Real((1000 * s + 100 * ch + 10 * r + c) as f64))
}

fn planes(image: &Image<Real>) -> Vec<Vec<Vec<f64>>> {
    image.get_planes().iter().map(|sample| sample.iter().map(entries).collect()).collect()
}

fn at(image: &Image<Real>, r: usize, c: usize, ch: usize, s: usize) -> f64 {
    image.get(r, c, ch, s).unwrap().0
}

#[test]
fn matrices_are_built_from_one_list_of_entries() {
    let built = Matrix::from_iter(2, 3, &reals(&[1.0, 2.0, 3.0, 4.0, 5.0, 6.0])).unwrap();
    assert_eq!(built.dim(), (2, 3));
    assert_eq!(built.get_data(), vec![reals(&[1.0, 2.0]), reals(&[3.0, 4.0]), reals(&[5.0, 6.0])]);
    assert_eq!(built.get_data_row_leading(), vec![reals(&[1.0, 3.0, 5.0]), reals(&[2.0, 4.0, 6.0])]);
    assert_eq!(Matrix::from_iter(2, 3, &reals(&[1.0, 2.0])).err(), Some(Error::ShapeMismatch));
    assert_eq!(Matrix::from_iter(usize::MAX, 2, &reals(&[1.0])).err(), Some(Error::ShapeMismatch));
    let none: Matrix<Real> = Matrix::from_iter(0, 5, &vec![]).unwrap();
    assert_eq!(none.dim(), (0, 5));
    let same = Matrix::from_column_leading_matrix(&vec![reals(&[1.0, 2.0]), reals(&[3.0, 4.0])]).unwrap();
    let turned = Matrix::from_row_leading_matrix(&vec![reals(&[1.0, 3.0]), reals(&[2.0, 4.0])]).unwrap();
    assert_eq!(same.get_data(), turned.get_data());
    assert!(Matrix::<Real>::is_backend_thread_safe());
}

#[test]
fn matrices_are_joined_column_after_column() {
    let a = Matrix::from_column_leading_matrix(&vec![reals(&[1.0, 2.0])]).unwrap();
    let b = Matrix::from_column_leading_matrix(&vec![reals(&[3.0, 4.0]), reals(&[5.0, 6.0])]).unwrap();
    let empty: Matrix<Real> = Matrix::zeros(2, 0);
    let joined = Matrix::from_column_matrices(&vec![a.clone(), empty, b.clone(), a.clone()]).unwrap();
    assert_eq!(joined.dim(), (2, 4));
    assert_eq!(entries(&joined), vec![1.0, 2.0, 3.0, 4.0, 5.0, 6.0, 1.0, 2.0]);
    assert_eq!(entries(&Matrix::from_column_matrices(&vec![b.clone()]).unwrap()), entries(&b));
    let none: Vec<Matrix<Real>> = vec![];
    assert_eq!(Matrix::from_column_matrices(&none).err(), Some(Error::ShapeMismatch));
    let taller: Matrix<Real> = Matrix::zeros(3, 1);
    assert_eq!(Matrix::from_column_matrices(&vec![a, taller]).err(), Some(Error::ShapeMismatch));
}

#[test]
fn the_sign_is_minus_one_below_zero_and_one_elsewhere() {
    let matrix = Matrix::from_column_leading_matrix(&vec![reals(&[-2.5, 0.0]), reals(&[3.0, -0.0])]).unwrap();
    assert_eq!(entries(&matrix.sign()), vec![-1.0, 1.0, 1.0, 1.0]);
    let image = Image::from_fn(2, 1, 1, 2, |_c, r, _ch, s| Real(r as f64 - s as f64));
    let signs = image.sign();
    assert_eq!((at(&signs, 0, 0, 0, 0), at(&signs, 1, 0, 0, 0)), (1.0, 1.0));
    assert_eq!((at(&signs, 0, 0, 0, 1), at(&signs, 1, 0, 0, 1)), (-1.0, 1.0));
}

#[test]
fn samples_and_channels_are_taken_from_an_image() {
    let image = numbered(2, 3, 4, 5);
    let sample = image.get_sample(3).unwrap();
    assert_eq!((sample.image_dims(), sample.samples()), ((2, 3, 4), 1));
    assert_eq!(at(&sample, 1, 2, 3, 0), 3312.0);
    assert!(image.get_sample(5).is_none());

    let channel = image.get_channel(2).unwrap();
    assert_eq!((channel.image_dims(), channel.samples()), ((2, 3, 1), 1));
    assert_eq!(at(&channel, 1, 2, 0, 0), 212.0);
    assert!(image.get_channel(4).is_none());
    assert!(numbered(2, 3, 4, 0).get_channel(0).is_none());

    let across = image.get_channel_across_samples(2).unwrap();
    assert_eq!((across.image_dims(), across.samples()), ((2, 3, 1), 5));
    for s in 0..5 {
        assert_eq!(at(&across, 1, 0, 0, s), (1000 * s + 210) as f64);
    }
    assert!(image.get_channel_across_samples(4).is_none());
    assert_eq!(numbered(2, 3, 4, 0).get_channel_across_samples(1).unwrap().samples(), 0);
}

#[test]
fn images_are_joined_sample_after_sample() {
    let image = numbered(2, 2, 3, 4);
    let parts: Vec<Image<Real>> = (0..4).map(|s| image.get_sample(s).unwrap()).collect();
    let joined = Image::join_samples(&parts).unwrap();
    assert_eq!(planes(&joined), planes(&image));
    let twice = Image::join_samples(&vec![image.clone(), numbered(2, 2, 3, 0), image.clone()]).unwrap();
    assert_eq!(twice.samples(), 8);
    assert_eq!(at(&twice, 1, 0, 2, 5), 1210.0);
    assert_eq!(planes(&Image::join_samples(&vec![image.clone()]).unwrap()), planes(&image));
    let none: Vec<Image<Real>> = vec![];
    assert_eq!(Image::join_samples(&none).err(), Some(Error::ShapeMismatch));
    for other in [numbered(3, 2, 3, 1), numbered(2, 3, 3, 1), numbered(2, 2, 2, 1)] {
        assert_eq!(Image::join_samples(&vec![image.clone(), other]).err(), Some(Error::ShapeMismatch));
    }
}

#[test]
fn images_are_joined_channel_after_channel() {
    let image = numbered(2, 2, 3, 4);
    let parts: Vec<Image<Real>> = (0..3).map(|ch| image.get_channel_across_samples(ch).unwrap()).collect();
    let joined = Image::join_channels(&parts).unwrap();
    assert_eq!(planes(&joined), planes(&image));
    let both = Image::join_channels(&vec![image.clone(), parts[1].clone()]).unwrap();
    assert_eq!((both.image_dims(), both.samples()), ((2, 2, 4), 4));
    assert_eq!(at(&both, 1, 1, 3, 2), 2111.0);
    assert_eq!(at(&both, 1, 1, 2, 2), 2211.0);
    let none: Vec<Image<Real>> = vec![];
    assert_eq!(Image::join_channels(&none).err(), Some(Error::ShapeMismatch));
    for other in [numbered(3, 2, 1, 4), numbered(2, 3, 1, 4), numbered(2, 2, 1, 3)] {
        assert_eq!(Image::join_channels(&vec![image.clone(), other]).err(), Some(Error::ShapeMismatch));
    }
}

#[test]
fn an_image_is_repeated_along_each_dimension() {
    let image = numbered(2, 3, 2, 2);
    let tiled = image.tile(2, 1, 3, 2).unwrap();
    assert_eq!((tiled.image_dims(), tiled.samples()), ((4, 3, 6), 4));
    for (r, c, ch, s) in [(0usize, 0usize, 0usize, 0usize), (3, 2, 5, 3), (2, 1, 4, 1), (1, 2, 3, 2)] {
        assert_eq!(at(&tiled, r, c, ch, s), at(&image, r % 2, c % 3, ch % 2, s % 2));
    }
    assert_eq!(planes(&image.tile(1, 1, 1, 1).unwrap()), planes(&image));
    let none = image.tile(0, 1, 1, 1).unwrap();
    assert_eq!((none.image_dims(), none.samples()), ((0, 3, 2), 2));
    assert_eq!(image.tile(usize::MAX, 1, 1, 1).err(), Some(Error::ShapeMismatch));
    assert_eq!(image.tile(1, 1, 1, usize::MAX).err(), Some(Error::ShapeMismatch));
}

#[test]
fn an_image_is_summed_and_averaged() {
    let image = Image::from_fn(2, 2, 2, 3, |c, r, ch, s| Real((s + ch + r + c) as f64));
    // Over all entries.
    assert_eq!(image.sum(), Real(60.0));
    assert_eq!(image.mean(), Real(2.5));
    // Along one dimension.
    let rows = image.mean_along(0).unwrap();
    assert_eq!((rows.image_dims(), rows.samples()), ((1, 2, 2), 3));
    assert_eq!(at(&rows, 0, 1, 1, 2), 4.5);
    let columns = image.mean_along(1).unwrap();
    assert_eq!((columns.image_dims(), columns.samples()), ((2, 1, 2), 3));
    assert_eq!(at(&columns, 1, 0, 0, 1), 2.5);
    let channels = image.mean_along(2).unwrap();
    assert_eq!((channels.image_dims(), channels.samples()), ((2, 2, 1), 3));
    assert_eq!(at(&channels, 1, 1, 0, 0), 2.5);
    let samples = image.mean_along(3).unwrap();
    assert_eq!((samples.image_dims(), samples.samples()), ((2, 2, 2), 1));
    assert_eq!(at(&samples, 0, 0, 0, 0), 1.0);
    assert_eq!(at(&samples, 1, 1, 1, 0), 4.0);
    assert_eq!(image.mean_at(3, 1, 0, 1, 0), Real(3.0));
    assert_eq!(image.mean_along(4).err(), Some(Error::ShapeMismatch));
}

#[test]
fn matrices_are_changed_by_functions_of_their_entries() {
    let matrix = Matrix::from_column_leading_matrix(&vec![reals(&[1.0, 2.0]), reals(&[3.0, 4.0]), reals(&[5.0, 6.0])])
        .unwrap();
    let doubled = matrix.map(|value: Real| Real(2.0 * value.0));
    assert_eq!(doubled.dim(), (2, 3));
    assert_eq!(entries(&doubled), vec![2.0, 4.0, 6.0, 8.0, 10.0, 12.0]);

    let mut placed = matrix.clone();
    placed.map_indexed_mut(|r: usize, c: usize, value: Real| Real(value.0 + 100.0 * r as f64 + 10.0 * c as f64));
    assert_eq!(entries(&placed), vec![1.0, 102.0, 13.0, 114.0, 25.0, 126.0]);
    assert_eq!(entries(&matrix), vec![1.0, 2.0, 3.0, 4.0, 5.0, 6.0]);

    let turned = matrix.columns_map(|c: usize, column: &Vec<Real>| {
        column.iter().rev().map(|value| Real(value.0 * (c + 1) as f64)).collect()
    });
    assert_eq!(entries(&turned), vec![2.0, 1.0, 8.0, 6.0, 18.0, 15.0]);

    let mut changed = matrix.clone();
    changed.set(1, 2, Real(-6.0)).unwrap();
    assert_eq!(entries(&changed), vec![1.0, 2.0, 3.0, 4.0, 5.0, -6.0]);
    assert_eq!(changed.set(2, 0, Real(0.0)).err(), Some(Error::ShapeMismatch));
    assert_eq!(changed.set(0, 3, Real(0.0)).err(), Some(Error::ShapeMismatch));
    assert_eq!(entries(&changed), vec![1.0, 2.0, 3.0, 4.0, 5.0, -6.0]);
    let empty: Matrix<Real> = Matrix::zeros(0, 0);
    assert_eq!(empty.map(|value: Real| value).dim(), (0, 0));
}
