use ion_monitor::layout::{gauge_slots, screen_areas, selected_row_rect, ui_layout, Area};

fn area(x: u16, y: u16, width: u16, height: u16) -> Area {
    Area { x, y, width, height }
}

#[test]
fn wide_gauges_sit_in_four_columns() {
    let slots = gauge_slots(area(0, 0, 100, 7));
    assert_eq!(slots[0], area(0, 0, 25, 7));
    assert_eq!(slots[1], area(25, 0, 25, 7));
    assert_eq!(slots[2], area(50, 0, 25, 7));
    assert_eq!(slots[3], area(75, 0, 25, 7));
}

#[test]
fn narrow_gauges_sit_in_a_grid() {
    let slots = gauge_slots(area(0, 0, 40, 8));
    assert_eq!(slots[0], area(0, 0, 20, 4));
    assert_eq!(slots[1], area(20, 0, 20, 4));
    assert_eq!(slots[2], area(0, 4, 20, 4));
    assert_eq!(slots[3], area(20, 4, 20, 4));
}

#[test]
fn screen_bands_from_the_top() {
    let s = screen_areas(area(0, 0, 100, 40));
    assert_eq!(s.banner, area(0, 0, 100, 5));
    assert_eq!(s.summary, area(0, 5, 100, 2));
    assert_eq!(s.gauges_area.y, 7);
    assert_eq!(s.gauges_area.height, 7);
    assert_eq!(s.gauges_area.width + s.sparklines_area.width, 100);
    assert_eq!(s.table.y, 14);
    assert_eq!(s.table.height, 26);
    assert_eq!(s.table.x, 0);
    assert_eq!(s.side.y, 14);
    assert!(s.side.x > 0);
    assert_eq!(s.disk.height, 3);
    assert_eq!(s.disk.y, s.disk_net.y);
}

#[test]
fn narrow_screen_stacks_table_over_side() {
    let s = screen_areas(area(0, 0, 60, 40));
    assert_eq!(s.table.x, 0);
    assert_eq!(s.side.x, 0);
    assert_eq!(s.table.width, 60);
    assert!(s.side.y > s.table.y);
}

#[test]
fn selected_row_inside_table() {
    let t = area(2, 10, 30, 8);
    assert_eq!(selected_row_rect(t, Some(0)), Some(area(3, 12, 28, 1)));
    assert_eq!(selected_row_rect(t, Some(4)), Some(area(3, 16, 28, 1)));
    assert_eq!(selected_row_rect(t, Some(5)), None);
    assert_eq!(selected_row_rect(t, None), None);
    assert_eq!(selected_row_rect(area(0, 0, 30, 3), Some(0)), None);
}

#[test]
fn ui_layout_highlights_only_in_navigation_mode() {
    let s = screen_areas(area(0, 0, 100, 40));
    let l = ui_layout(&s, false, Some(0));
    assert_eq!(l.selected_row, None);
    assert_eq!(l.table, s.table);
    let l = ui_layout(&s, true, Some(0));
    assert_eq!(l.selected_row, selected_row_rect(s.table, Some(0)));
    assert!(l.selected_row.is_some());
}

use ion_monitor::layout::screen_parts;

#[test]
fn every_panel_lies_on_the_screen() {
    for (w, h) in [(100u16, 40u16), (60, 40), (120, 10), (79, 30), (200, 60)] {
        let screen = area(3, 2, w, h);
        let s = screen_areas(screen);
        let mut panels = vec![
            s.banner, s.summary, s.middle, s.bottom, s.gauges_area, s.sparklines_area,
            s.cpu_history, s.ram_history, s.table, s.side, s.per_core, s.disk_net, s.disk,
            s.network, s.connectivity,
        ];
        panels.extend_from_slice(&s.gauges);
        for p in panels {
            assert!(p.x >= screen.x && p.x + p.width <= screen.x + screen.width);
            assert!(p.y >= screen.y && p.y + p.height <= screen.y + screen.height);
        }
        assert_eq!(s.banner.x, screen.x);
        assert_eq!(s.banner.width, screen.width);
    }
}

#[test]
fn panels_name_the_pieces() {
    let parts = screen_parts(area(0, 0, 100, 40));
    let s = parts.panels();
    assert_eq!(s.banner, parts.bands[0]);
    assert_eq!(s.bottom, parts.bands[3]);
    assert_eq!(s.sparklines_area, parts.middle[1]);
    assert_eq!(s.ram_history, parts.sparks[1]);
    assert_eq!(s.side, parts.bottom[1]);
    assert_eq!(s.connectivity, parts.sides[2]);
    assert_eq!(s.network, parts.disk_net[1]);
}

use ion_monitor::layout::{column_slots, grid_slots};

#[test]
fn slots_are_taken_row_by_row_and_column_by_column() {
    let top = vec![area(0, 0, 5, 2), area(5, 0, 5, 2)];
    let bottom = vec![area(0, 2, 5, 2), area(5, 2, 5, 2)];
    assert_eq!(grid_slots(&top, &bottom), [top[0], top[1], bottom[0], bottom[1]]);
    let cols = vec![area(0, 0, 1, 1), area(1, 0, 1, 1), area(2, 0, 1, 1), area(3, 0, 1, 1)];
    assert_eq!(column_slots(&cols), [cols[0], cols[1], cols[2], cols[3]]);
}
