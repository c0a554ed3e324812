use faer::col::colmut::ColMut;
use faer::col::colown::{reserve_outcome, Col, TryReserveError};
use faer::col::colref::ColRef;
use faer::layout::MatLayout;
use faer::linalg::temp_mat::temp_mat_uninit;
use faer::mat::matmut::MatMut;
use faer::mat::matref::MatRef;

#[test]
fn column_splits_into_independent_halves() {
    let mut data = vec![1, 2, 3, 4, 5];
    {
        let col = ColMut::from_slice_mut(&mut data);
        let (mut top, mut bot) = col.split_at_row_mut(2);
        assert_eq!((top.nrows(), bot.nrows()), (2, 3));
        assert_eq!(top.read(1), 2);
        assert_eq!(top[1], 2);
        assert_eq!(bot.read(0), 3);
        top.write(0, 10);
        bot.write(2, 50);
        top.write(1, 20);
    }
    assert_eq!(data, vec![10, 20, 3, 4, 50]);
}

#[test]
fn reversed_column_splits_into_independent_halves() {
    let mut data = vec![1, 2, 3, 4, 5];
    {
        // the reversed column reads 5, 4, 3, 2, 1
        let col = ColMut::from_slice_mut(&mut data).reverse_rows_mut();
        assert_eq!(col.row_stride(), -1);
        let (mut top, mut bot) = col.split_at_row_mut(2);
        assert_eq!(top.rb().iter(), vec![5, 4]);
        assert_eq!(bot.rb().iter(), vec![3, 2, 1]);
        top.write(0, 50);
        bot.write(2, 10);
    }
    assert_eq!(data, vec![10, 2, 3, 4, 50]);
}

#[test]
fn column_splits_at_its_ends() {
    let mut data = vec![1, 2, 3];
    {
        let (top, mut bot) = ColMut::from_slice_mut(&mut data).split_at_row_mut(0);
        assert_eq!((top.nrows(), bot.nrows()), (0, 3));
        bot.write(0, 7);
    }
    {
        let (mut top, bot) = ColMut::from_slice_mut(&mut data).split_at_row_mut(3);
        assert_eq!((top.nrows(), bot.nrows()), (3, 0));
        top.write(2, 9);
    }
    {
        let (mut top, mut bot) =
            ColMut::from_slice_mut(&mut data).reverse_rows_mut().split_at_row_mut(1);
        top.write(0, 90);
        bot.write(1, 70);
    }
    assert_eq!(data, vec![70, 2, 90]);
}

#[test]
fn owned_column_splits_and_lends_entries() {
    let mut col = Col::from_vec(vec![1, 2, 3, 4]);
    {
        let (mut top, mut bot) = col.split_at_row_mut(1);
        top.write(0, -1);
        bot.write(0, -2);
    }
    *col.get_mut(3) = -4;
    assert_eq!(col.into_vec(), vec![-1, -2, 3, -4]);
}

#[test]
fn contiguous_column_is_a_slice() {
    let mut data = vec![1, 2, 3, 4, 5, 6];
    {
        let m = MatMut::from_column_major_slice_mut(&mut data, 3, 2);
        let col = m.col_mut(1);
        assert_eq!(col.row_stride(), 1);
        let slice = col.subrows_mut(1, 2).as_slice_mut();
        assert_eq!(slice.to_vec(), vec![5, 6]);
        slice[0] = 50;
    }
    assert_eq!(data, vec![1, 2, 3, 4, 50, 6]);
    let mut none: Vec<i32> = vec![];
    assert_eq!(ColMut::from_slice_mut(&mut none).as_slice_mut().len(), 0);
}

#[test]
fn reserving_too_much_fails() {
    let mut col = Col::from_vec(vec![1u64, 2, 3]);
    assert_eq!(col.try_reserve(usize::MAX), Err(TryReserveError {}));
    assert_eq!(col.try_reserve(2), Ok(()));
    assert_eq!(col.into_vec(), vec![1, 2, 3]);
}

#[test]
fn reserving_no_more_than_the_column_has_succeeds() {
    let mut col = Col::from_vec(vec![1u64, 2, 3]);
    assert_eq!(col.try_reserve(0), Ok(()));
    assert_eq!(col.try_reserve(3), Ok(()));
    let mut none: Col<u64> = Col::from_vec(vec![]);
    assert_eq!(none.try_reserve(0), Ok(()));
    assert_eq!(col.try_reserve(100), Ok(()));
    col.reserve(200);
    assert_eq!(col.into_vec(), vec![1, 2, 3]);
}

#[test]
fn outcome_of_the_allocation_is_reported() {
    let mut v: Vec<u64> = Vec::new();
    assert_eq!(reserve_outcome(v.try_reserve(4)), Ok(()));
    assert_eq!(reserve_outcome(v.try_reserve(usize::MAX)), Err(TryReserveError {}));
}

#[test]
fn immutable_column_view_api() {
    let data = [1, 2, 3, 4];
    let col = ColRef::from_slice(&data);
    assert_eq!(col.nrows(), 4);
    assert_eq!(col.ncols(), 1);
    assert_eq!(col.shape(), (4, 1));
    assert_eq!(col.row_stride(), 1);
    assert_eq!(col.read(3), 4);
    assert_eq!(col[3], 4);
    assert_eq!(*col.get(0), 1);
    assert_eq!(col.subrows(1, 2).iter(), vec![2, 3]);
    let (top, bot) = col.split_at_row(3);
    assert_eq!(top.iter(), vec![1, 2, 3]);
    assert_eq!(bot.iter(), vec![4]);
    let rev = col.reverse_rows();
    assert_eq!(rev.iter(), vec![4, 3, 2, 1]);
    assert_eq!(rev.row_stride(), -1);
    assert!(rev.try_as_col_major().is_none());
    assert!(col.try_as_col_major().is_some());
    assert_eq!(rev.reverse_rows().iter(), vec![1, 2, 3, 4]);
    assert_eq!(rev.subrows(1, 2).reverse_rows().iter(), vec![2, 3]);
    assert_eq!(col.as_row_shape(4).as_dyn_rows().as_dyn_stride().as_ref().nrows(), 4);
    let m = col.as_mat();
    assert_eq!((m.nrows(), m.ncols()), (4, 1));
    assert_eq!(m.read(2, 0), 3);
    let row = col.transpose();
    assert_eq!((row.nrows(), row.ncols()), (1, 4));
    assert_eq!(row.read(1), 2);
    assert_eq!(row.transpose().read(1), 2);
    assert_eq!(col.as_diagonal().column_vector().read(2), 3);
    let single = ColRef::from_slice(&data[..1]);
    assert_eq!(single.reverse_rows().iter(), vec![1]);
    let none = ColRef::from_slice(&data[..0]);
    assert_eq!(none.reverse_rows().iter(), Vec::<i32>::new());
}

#[test]
fn strided_column_of_a_row_major_matrix() {
    // [[1, 2, 3], [4, 5, 6]] stored row after row
    let data = [1, 2, 3, 4, 5, 6];
    let m = MatRef::from_row_major_slice(&data, 2, 3);
    let col = m.col(2);
    assert_eq!(col.row_stride(), 3);
    assert_eq!(col.iter(), vec![3, 6]);
    assert_eq!(m.transpose().col(1).iter(), vec![4, 5, 6]);
    assert_eq!(m.reverse_rows_and_cols().col(0).iter(), vec![6, 3]);
}

#[test]
fn layouts_address_entries() {
    let lay = MatLayout::column_major(3, 2);
    assert_eq!(lay.offset(2, 1), 5);
    assert_eq!(lay.offset(0, 0), 0);
    let t = lay.transpose();
    assert_eq!((t.nrows, t.ncols), (2, 3));
    assert_eq!(t.offset(1, 2), 5);
    assert_eq!(t.offset(1, 0), 3);
}

#[test]
fn temporary_matrix_takes_the_front_of_the_workspace() {
    let mut stack = vec![0; 10];
    {
        let (mut tmp, rest) = temp_mat_uninit(2, 3, &mut stack);
        assert_eq!((tmp.nrows(), tmp.ncols()), (2, 3));
        assert_eq!(rest.len(), 4);
        tmp.write(1, 2, 7);
        rest[0] = 9;
    }
    assert_eq!(stack, vec![0, 0, 0, 0, 0, 7, 9, 0, 0, 0]);
}
