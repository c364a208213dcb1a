use vstd::prelude::*;
use crate::chance::Chance;

verus! {

/// The settings of a game.
#[derive(Clone, Copy, Debug)]
pub struct Config {
    /// Number of columns of the board.
    pub width: u32,
    /// Number of rows of the board.
    pub height: u32,
    /// Pause between two ticks, in milliseconds.
    pub pause_time: u32,
    /// Whether the board gets a maze.
    pub enable_maze: bool,
    /// The chance with which the erosion opens a wall of the maze.
    pub maze_freedom: Chance,
}

impl Config {
    pub fn new(
        width: u32,
        height: u32,
        pause_time: u32,
        enable_maze: bool,
        maze_freedom: Chance,
    ) -> (config: Config)
        ensures
            config.width == width,
            config.height == height,
            config.pause_time == pause_time,
            config.enable_maze == enable_maze,
            config.maze_freedom == maze_freedom,
    {
        Config { width, height, pause_time, enable_maze, maze_freedom }
    }

    pub fn get_width(&self) -> (width: u32)
        ensures
            width == self.width,
    {
        self.width
    }

    pub fn get_height(&self) -> (height: u32)
        ensures
            height == self.height,
    {
        self.height
    }

    pub fn get_pause_time(&self) -> (pause_time: u32)
        ensures
            pause_time == self.pause_time,
    {
        self.pause_time
    }

    pub fn is_maze_enabled(&self) -> (enabled: bool)
        ensures
            enabled == self.enable_maze,
    {
        self.enable_maze
    }

    pub fn get_maze_freedom(&self) -> (freedom: Chance)
        ensures
            freedom == self.maze_freedom,
    {
        self.maze_freedom
    }
}

} // verus!
